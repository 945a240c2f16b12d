//! How the writer lays out the `[Events]` lines, and what reading them back
//! gives: the events written, each with its commands nested as they were.
use vstd::prelude::*;
use crate::text::{lines, strip_cr};
use crate::dotosu::roundtrip::{is_trimmed, lemma_lines_append, lemma_lines_cons, one_line};
use crate::dotosu::objects_roundtrip::join;
use crate::dotosu::events::{
    command_line_text, command_text, commands_match, commands_text, event_content, event_contents,
    event_line_matches, event_line_ok, event_nesting_fits, event_text, events_text,
    event_indices, events_match, command_lines, line_command, next_index, event_lines_match,
    events_section_ok,
    lemma_run_end_char, nesting_fits, tabs_text, Command, CommandLineWithTab, Event, EventLine,
};
use crate::dotosu::events_roundtrip::{
    command_head_clean, command_pieces, event_head_clean, event_head_text, event_line_text,
    event_pieces, lemma_command_body_text, lemma_command_decode, lemma_command_line_shape,
    lemma_event_decode, lemma_event_head_text, lemma_event_line_shape, same_command_head,
    same_event_head, tagged,
};

verus! {

/// Lines, each ended by a line break.
pub open spec fn text_of_lines(ls: Seq<Seq<char>>) -> Seq<char>
    decreases ls.len(),
{
    if ls.len() == 0 {
        seq![]
    } else {
        text_of_lines(ls.drop_last()) + ls.last() + seq!['\n']
    }
}

pub proof fn lemma_text_of_lines_append(a: Seq<Seq<char>>, b: Seq<Seq<char>>)
    ensures
        text_of_lines(a + b) == text_of_lines(a) + text_of_lines(b),
    decreases b.len(),
{
    if b.len() == 0 {
        assert(a + b =~= a);
        assert(text_of_lines(a) + text_of_lines(b) =~= text_of_lines(a));
    } else {
        lemma_text_of_lines_append(a, b.drop_last());
        assert((a + b).drop_last() =~= a + b.drop_last());
        assert((a + b).last() == b.last());
        assert(text_of_lines(a + b) =~= text_of_lines(a) + text_of_lines(b));
    }
}

/// The lines of such a text are the lines it was made of.
pub proof fn lemma_lines_of_text(ls: Seq<Seq<char>>)
    requires
        forall|i: int| 0 <= i < ls.len() ==> one_line(#[trigger] ls[i]) && strip_cr(ls[i]) == ls[i],
    ensures
        lines(text_of_lines(ls)) == ls,
    decreases ls.len(),
{
    if ls.len() == 0 {
        assert(lines(text_of_lines(ls)) =~= ls);
    } else {
        let init = ls.drop_last();
        assert forall|i: int| 0 <= i < init.len() implies one_line(#[trigger] init[i]) && strip_cr(
            init[i],
        ) == init[i] by {
            assert(init[i] == ls[i]);
        }
        lemma_lines_of_text(init);
        let last = ls.last();
        assert(one_line(last) && strip_cr(last) == last);
        lemma_lines_append(text_of_lines(init), last + seq!['\n']);
        lemma_lines_cons(last, seq![]);
        assert(last + seq!['\n'] + Seq::<char>::empty() =~= last + seq!['\n']);
        assert(lines(Seq::<char>::empty()) =~= Seq::<Seq<char>>::empty());
        assert(text_of_lines(ls) =~= text_of_lines(init) + (last + seq!['\n']));
        assert(init + seq![last] =~= ls);
    }
}

/// The lines, with their indentation, that writing `c` at indentation `t`
/// gives: its own, then those of its inner commands one deeper.
pub open spec fn command_layout(c: Command, t: nat) -> Seq<(Command, nat)>
    decreases c, 1nat,
{
    seq![(c, t)] + match c {
        Command::LoopCommand(x) => commands_layout(x.inner_commands@, t + 1, x.inner_commands@.len()),
        Command::TriggerCommand(x) => commands_layout(
            x.inner_commands@,
            t + 1,
            x.inner_commands@.len(),
        ),
        _ => seq![],
    }
}

/// The lines of the first `n` commands of `cs` at indentation `t`.
pub open spec fn commands_layout(cs: Seq<Command>, t: nat, n: nat) -> Seq<(Command, nat)>
    decreases cs, n,
{
    if n == 0 || n > cs.len() {
        seq![]
    } else {
        commands_layout(cs, t, (n - 1) as nat) + command_layout(cs[n - 1], t)
    }
}

/// The line that the writer gives a command at an indentation.
pub open spec fn written_command_line(p: (Command, nat)) -> Seq<char> {
    event_line_text(command_pieces(p.0), p.1)
}

/// The written lines of a layout.
pub open spec fn layout_lines(l: Seq<(Command, nat)>) -> Seq<Seq<char>> {
    l.map_values(|p: (Command, nat)| written_command_line(p))
}

/// Joining pieces whose first is indented is indenting the joined pieces.
pub proof fn lemma_join_tagged(ps: Seq<Seq<char>>, t: nat)
    requires
        ps.len() >= 1,
    ensures
        join(tagged(ps, t), ',') == tabs_text(t) + join(ps, ','),
{
    let tp = tagged(ps, t);
    if ps.len() > 1 {
        assert(tp.drop_first() =~= ps.drop_first());
        assert(join(tp, ',') =~= tabs_text(t) + join(ps, ','));
    }
}

/// A command's own line is its written line with a line break.
proof fn lemma_command_line_text(c: Command, t: nat)
    ensures
        command_line_text(c, t) == written_command_line((c, t)) + seq!['\n'],
{
    lemma_command_body_text(c);
    assert(command_pieces(c).len() >= 3);
    lemma_join_tagged(command_pieces(c), t);
    assert(command_line_text(c, t) =~= written_command_line((c, t)) + seq!['\n']);
}

proof fn lemma_layout_lines_append(a: Seq<(Command, nat)>, b: Seq<(Command, nat)>)
    ensures
        layout_lines(a + b) == layout_lines(a) + layout_lines(b),
{
    assert(layout_lines(a + b) =~= layout_lines(a) + layout_lines(b));
}

/// What the writer gives for a command is the text of its layout's lines.
pub proof fn lemma_command_text_layout(c: Command, t: nat)
    ensures
        command_text(c, t) == text_of_lines(layout_lines(command_layout(c, t))),
    decreases c, 1nat,
{
    lemma_command_line_text(c, t);
    let head = seq![(c, t)];
    let rest: Seq<(Command, nat)> = match c {
        Command::LoopCommand(x) => commands_layout(x.inner_commands@, t + 1, x.inner_commands@.len()),
        Command::TriggerCommand(x) => commands_layout(
            x.inner_commands@,
            t + 1,
            x.inner_commands@.len(),
        ),
        _ => seq![],
    };
    match c {
        Command::LoopCommand(x) => {
            lemma_commands_text_layout(x.inner_commands@, t + 1, x.inner_commands@.len());
        },
        Command::TriggerCommand(x) => {
            lemma_commands_text_layout(x.inner_commands@, t + 1, x.inner_commands@.len());
        },
        _ => {
            assert(text_of_lines(layout_lines(rest)) =~= Seq::<char>::empty());
        },
    }
    assert(command_layout(c, t) == head + rest);
    lemma_layout_lines_append(head, rest);
    lemma_text_of_lines_append(layout_lines(head), layout_lines(rest));
    let hl = layout_lines(head);
    assert(hl =~= seq![written_command_line((c, t))]);
    assert(hl.drop_last() =~= Seq::<Seq<char>>::empty());
    assert(text_of_lines(hl.drop_last()) == Seq::<char>::empty());
    assert(hl.last() == written_command_line((c, t)));
    assert(text_of_lines(hl) =~= written_command_line((c, t)) + seq!['\n']);
}

/// What the writer gives for the first `n` commands is the text of their
/// layout's lines.
pub proof fn lemma_commands_text_layout(cs: Seq<Command>, t: nat, n: nat)
    ensures
        commands_text(cs, t, n) == text_of_lines(layout_lines(commands_layout(cs, t, n))),
    decreases cs, n,
{
    if n == 0 || n > cs.len() {
        assert(layout_lines(commands_layout(cs, t, n)) =~= Seq::<Seq<char>>::empty());
    } else {
        lemma_commands_text_layout(cs, t, (n - 1) as nat);
        lemma_command_text_layout(cs[n - 1], t);
        let a = commands_layout(cs, t, (n - 1) as nat);
        let b = command_layout(cs[n - 1], t);
        lemma_layout_lines_append(a, b);
        lemma_text_of_lines_append(layout_lines(a), layout_lines(b));
    }
}

/// The layout of a command starts with its own line; the lines after it are
/// indented deeper, as deep as indentation can count.
pub proof fn lemma_command_layout_tabs(c: Command, t: nat)
    requires
        t <= i32::MAX,
        nesting_fits(c, i32::MAX - t),
    ensures
        command_layout(c, t).len() >= 1,
        command_layout(c, t)[0] == (c, t),
        forall|k: int|
            1 <= k < command_layout(c, t).len() ==> t + 1 <= (#[trigger] command_layout(c, t)[k]).1
                <= i32::MAX,
    decreases c, 1nat,
{
    let l = command_layout(c, t);
    match c {
        Command::LoopCommand(x) => {
            let inner = x.inner_commands@;
            assert forall|i: int| 0 <= i < inner.len() implies nesting_fits(
                #[trigger] inner[i],
                i32::MAX - (t + 1),
            ) by {}
            lemma_commands_layout_tabs(inner, t + 1, inner.len());
            let r = commands_layout(inner, t + 1, inner.len());
            assert forall|k: int| 1 <= k < l.len() implies t + 1 <= (#[trigger] l[k]).1 <= i32::MAX by {
                assert(l[k] == r[k - 1]);
            }
        },
        Command::TriggerCommand(x) => {
            let inner = x.inner_commands@;
            assert forall|i: int| 0 <= i < inner.len() implies nesting_fits(
                #[trigger] inner[i],
                i32::MAX - (t + 1),
            ) by {}
            lemma_commands_layout_tabs(inner, t + 1, inner.len());
            let r = commands_layout(inner, t + 1, inner.len());
            assert forall|k: int| 1 <= k < l.len() implies t + 1 <= (#[trigger] l[k]).1 <= i32::MAX by {
                assert(l[k] == r[k - 1]);
            }
        },
        _ => {
            assert(l =~= seq![(c, t)]);
        },
    }
}

/// Every line of the layout of commands at indentation `t` is indented at
/// least `t` deep, as deep as indentation can count.
pub proof fn lemma_commands_layout_tabs(cs: Seq<Command>, t: nat, n: nat)
    requires
        t <= i32::MAX,
        forall|i: int| 0 <= i < cs.len() ==> nesting_fits(#[trigger] cs[i], i32::MAX - t),
    ensures
        forall|k: int|
            0 <= k < commands_layout(cs, t, n).len() ==> t <= (#[trigger] commands_layout(
                cs,
                t,
                n,
            )[k]).1 <= i32::MAX,
    decreases cs, n,
{
    if n > 0 && n <= cs.len() {
        lemma_commands_layout_tabs(cs, t, (n - 1) as nat);
        assert(nesting_fits(cs[n - 1], i32::MAX - t));
        lemma_command_layout_tabs(cs[n - 1], t);
        let a = commands_layout(cs, t, (n - 1) as nat);
        let b = command_layout(cs[n - 1], t);
        let l = commands_layout(cs, t, n);
        assert forall|k: int| 0 <= k < l.len() implies t <= (#[trigger] l[k]).1 <= i32::MAX by {
            if k < a.len() {
                assert(l[k] == a[k]);
            } else {
                assert(l[k] == b[k - a.len()]);
            }
        }
    }
}

/// The layout of commands is that of the first, then that of the others.
pub proof fn lemma_commands_layout_first(cs: Seq<Command>, t: nat, n: nat)
    requires
        1 <= n <= cs.len(),
    ensures
        commands_layout(cs, t, n) == command_layout(cs[0], t) + commands_layout(
            cs.skip(1),
            t,
            (n - 1) as nat,
        ),
    decreases n,
{
    if n == 1 {
        assert(commands_layout(cs, t, 0) =~= Seq::<(Command, nat)>::empty());
        assert(commands_layout(cs.skip(1), t, 0) =~= Seq::<(Command, nat)>::empty());
        assert(commands_layout(cs, t, n) =~= command_layout(cs[0], t) + commands_layout(
            cs.skip(1),
            t,
            0,
        ));
    } else {
        lemma_commands_layout_first(cs, t, (n - 1) as nat);
        assert(cs.skip(1)[n - 2] == cs[n - 1]);
        assert(commands_layout(cs, t, n) =~= command_layout(cs[0], t) + commands_layout(
            cs.skip(1),
            t,
            (n - 1) as nat,
        ));
    }
}

/// `a` and `b` are the same command: the same kind with the same values, and
/// (for a loop or trigger) the same inner commands.
pub open spec fn same_command(a: Command, b: Command) -> bool
    decreases a,
{
    match a {
        Command::LoopCommand(x) => match b {
            Command::LoopCommand(y) => x.start_time@ == y.start_time@ && x.loop_count
                == y.loop_count && x.inner_commands@.len() == y.inner_commands@.len() && forall|
                i: int,
            |
                0 <= i < x.inner_commands@.len() ==> same_command(
                    #[trigger] x.inner_commands@[i],
                    y.inner_commands@[i],
                ),
            _ => false,
        },
        Command::TriggerCommand(x) => match b {
            Command::TriggerCommand(y) => x.trigger_type@ == y.trigger_type@ && x.start_time@
                == y.start_time@ && x.end_time@ == y.end_time@ && x.inner_commands@.len()
                == y.inner_commands@.len() && forall|i: int|
                0 <= i < x.inner_commands@.len() ==> same_command(
                    #[trigger] x.inner_commands@[i],
                    y.inner_commands@[i],
                ),
            _ => false,
        },
        _ => same_command_head(a, b),
    }
}

/// The command lines `f` read as the layout `l`: line by line, the same
/// indentation and the head of the same command.
pub open spec fn reads_as_layout(f: Seq<CommandLineWithTab>, l: Seq<(Command, nat)>) -> bool {
    &&& f.len() == l.len()
    &&& forall|k: int|
        0 <= k < f.len() ==> (#[trigger] f[k]).tab_count == l[k].1 as i32 && same_command_head(
            f[k].command,
            l[k].0,
        )
}

/// Nesting command lines that read as the layout of commands gives those
/// commands back.
pub proof fn lemma_commands_read_back(
    cmds: Seq<Command>,
    f: Seq<CommandLineWithTab>,
    cs: Seq<Command>,
    t: nat,
)
    requires
        t <= i32::MAX,
        forall|i: int| 0 <= i < cs.len() ==> nesting_fits(#[trigger] cs[i], i32::MAX - t),
        reads_as_layout(f, commands_layout(cs, t, cs.len())),
        commands_match(cmds, f),
    ensures
        cmds.len() == cs.len(),
        forall|i: int| 0 <= i < cs.len() ==> same_command(#[trigger] cmds[i], cs[i]),
    decreases f.len(),
{
    if cs.len() == 0 {
        assert(commands_layout(cs, t, 0).len() == 0);
    } else {
        let l = commands_layout(cs, t, cs.len());
        lemma_commands_layout_first(cs, t, cs.len());
        let l0 = command_layout(cs[0], t);
        let rest = cs.skip(1);
        let lr = commands_layout(rest, t, rest.len());
        assert(l == l0 + lr);
        assert(nesting_fits(cs[0], i32::MAX - t));
        lemma_command_layout_tabs(cs[0], t);
        assert forall|i: int| 0 <= i < rest.len() implies nesting_fits(
            #[trigger] rest[i],
            i32::MAX - t,
        ) by {
            assert(rest[i] == cs[i + 1]);
        }
        let n0 = l0.len() as int;
        if lr.len() > 0 {
            lemma_commands_layout_first(rest, t, rest.len());
            assert(nesting_fits(rest[0], i32::MAX - t));
            lemma_command_layout_tabs(rest[0], t);
            assert(l[n0] == lr[0]);
            assert(f[n0].tab_count == t as i32);
        }
        assert(f[0].tab_count == t as i32) by {
            assert(l[0] == l0[0]);
        }
        assert forall|m: int| 1 <= m < n0 implies #[trigger] f[m].tab_count > t as i32 by {
            assert(l[m] == l0[m]);
        }
        lemma_run_end_char(f, t as i32, 1, n0);
        assert(same_command_head(f[0].command, cs[0])) by {
            assert(l[0] == l0[0]);
        }
        // The commands after the first.
        let fr = f.skip(n0);
        assert forall|k: int| 0 <= k < fr.len() implies (#[trigger] fr[k]).tab_count == lr[k].1 as i32
            && same_command_head(fr[k].command, lr[k].0) by {
            assert(fr[k] == f[k + n0]);
            assert(l[k + n0] == lr[k]);
        }
        lemma_commands_read_back(cmds.skip(1), fr, rest, t);
        // The first command and its block.
        let fb = f.subrange(1, n0);
        match cs[0] {
            Command::LoopCommand(x) => {
                let inner = x.inner_commands@;
                let li = commands_layout(inner, t + 1, inner.len());
                assert(l0 == seq![(cs[0], t)] + li);
                assert forall|k: int| 0 <= k < fb.len() implies (#[trigger] fb[k]).tab_count
                    == li[k].1 as i32 && same_command_head(fb[k].command, li[k].0) by {
                    assert(fb[k] == f[k + 1]);
                    assert(l[k + 1] == l0[k + 1]);
                    assert(l0[k + 1] == li[k]);
                }
                assert forall|i: int| 0 <= i < inner.len() implies nesting_fits(
                    #[trigger] inner[i],
                    i32::MAX - (t + 1),
                ) by {}
                match cmds[0] {
                    Command::LoopCommand(z) => {
                        lemma_commands_read_back(z.inner_commands@, fb, inner, t + 1);
                    },
                    _ => {},
                }
            },
            Command::TriggerCommand(x) => {
                let inner = x.inner_commands@;
                let li = commands_layout(inner, t + 1, inner.len());
                assert(l0 == seq![(cs[0], t)] + li);
                assert forall|k: int| 0 <= k < fb.len() implies (#[trigger] fb[k]).tab_count
                    == li[k].1 as i32 && same_command_head(fb[k].command, li[k].0) by {
                    assert(fb[k] == f[k + 1]);
                    assert(l[k + 1] == l0[k + 1]);
                    assert(l0[k + 1] == li[k]);
                }
                assert forall|i: int| 0 <= i < inner.len() implies nesting_fits(
                    #[trigger] inner[i],
                    i32::MAX - (t + 1),
                ) by {}
                match cmds[0] {
                    Command::TriggerCommand(z) => {
                        lemma_commands_read_back(z.inner_commands@, fb, inner, t + 1);
                    },
                    _ => {},
                }
            },
            _ => {},
        }
        assert(same_command(cmds[0], cs[0]));
        assert forall|i: int| 0 <= i < cs.len() implies same_command(#[trigger] cmds[i], cs[i]) by {
            if i > 0 {
                assert(cmds[i] == cmds.skip(1)[i - 1]);
                assert(cs[i] == rest[i - 1]);
            }
        }
    }
}

/// The commands of an event (none, for the events that keep none).
pub open spec fn event_commands(e: Event) -> Seq<Command> {
    match e {
        Event::Sprite(x) => x.commands@,
        Event::Animation(x) => x.commands@,
        _ => seq![],
    }
}

/// A command line of a layout, as the reader gives it.
pub open spec fn layout_entry(p: (Command, nat)) -> EventLine {
    EventLine::Command(CommandLineWithTab { tab_count: p.1 as i32, command: p.0 })
}

/// The lines of an event, by kind: its own line, then one per line of its
/// commands' layout at indentation 1.
pub open spec fn event_block(e: Event) -> Seq<EventLine> {
    seq![EventLine::Event(e)] + commands_layout(event_commands(e), 1, event_commands(e).len()).map_values(
        |p: (Command, nat)| layout_entry(p),
    )
}

/// The lines of all events, by kind.
pub open spec fn section_layout(es: Seq<Event>) -> Seq<EventLine>
    decreases es.len(),
{
    if es.len() == 0 {
        seq![]
    } else {
        section_layout(es.drop_last()) + event_block(es.last())
    }
}

/// The line that the writer gives a line of the layout.
pub open spec fn written_line(el: EventLine) -> Seq<char> {
    match el {
        EventLine::Event(e) => event_line_text(event_pieces(e), 0),
        EventLine::Command(cw) => event_line_text(command_pieces(cw.command), cw.tab_count as nat),
    }
}

/// The written lines of a layout.
pub open spec fn written_lines(l: Seq<EventLine>) -> Seq<Seq<char>> {
    l.map_values(|el: EventLine| written_line(el))
}

proof fn lemma_written_lines_append(a: Seq<EventLine>, b: Seq<EventLine>)
    ensures
        written_lines(a + b) == written_lines(a) + written_lines(b),
{
    assert(written_lines(a + b) =~= written_lines(a) + written_lines(b));
}

/// What the writer gives for an event is the text of its block's lines.
proof fn lemma_event_text_block(e: Event)
    requires
        event_nesting_fits(e),
    ensures
        event_text(e) == text_of_lines(written_lines(event_block(e))),
{
    let cs = event_commands(e);
    let l = commands_layout(cs, 1, cs.len());
    lemma_event_head_text(e);
    lemma_join_tagged(event_pieces(e), 0);
    assert(tabs_text(0) =~= Seq::<char>::empty());
    let head = written_line(EventLine::Event(e));
    assert(event_head_text(e) =~= head + seq!['\n']);
    assert(event_text(e) == event_head_text(e) + commands_text(cs, 1, cs.len())) by {
        match e {
            Event::Sprite(x) => {},
            Event::Animation(x) => {},
            _ => {
                assert(commands_text(cs, 1, 0) =~= Seq::<char>::empty());
                assert(event_text(e) =~= event_head_text(e) + commands_text(cs, 1, cs.len()));
            },
        }
    }
    lemma_commands_text_layout(cs, 1, cs.len());
    assert forall|i: int| 0 <= i < cs.len() implies nesting_fits(#[trigger] cs[i], i32::MAX - 1) by {
        match e {
            Event::Sprite(x) => {
                assert(nesting_fits(x.commands@[i], i32::MAX - 1));
            },
            Event::Animation(x) => {
                assert(nesting_fits(x.commands@[i], i32::MAX - 1));
            },
            _ => {},
        }
    }
    lemma_commands_layout_tabs(cs, 1, cs.len());
    let entries = l.map_values(|p: (Command, nat)| layout_entry(p));
    assert(written_lines(entries) =~= layout_lines(l)) by {
        assert forall|k: int| 0 <= k < l.len() implies #[trigger] written_lines(entries)[k]
            == layout_lines(l)[k] by {
            assert(1 <= l[k].1 <= i32::MAX);
            assert((l[k].1 as i32) as nat == l[k].1);
        }
    }
    let b = event_block(e);
    assert(b == seq![EventLine::Event(e)] + entries);
    lemma_written_lines_append(seq![EventLine::Event(e)], entries);
    let hl = written_lines(seq![EventLine::Event(e)]);
    assert(hl =~= seq![head]);
    assert(hl.drop_last() =~= Seq::<Seq<char>>::empty());
    assert(text_of_lines(hl.drop_last()) == Seq::<char>::empty());
    assert(text_of_lines(hl) =~= head + seq!['\n']);
    lemma_text_of_lines_append(hl, layout_lines(l));
}

/// What the writer gives for the events is the text of their layout's lines.
pub proof fn lemma_events_text_layout(es: Seq<Event>)
    requires
        forall|i: int| 0 <= i < es.len() ==> event_nesting_fits(#[trigger] es[i]),
    ensures
        events_text(es) == text_of_lines(written_lines(section_layout(es))),
    decreases es.len(),
{
    if es.len() == 0 {
        assert(written_lines(section_layout(es)) =~= Seq::<Seq<char>>::empty());
    } else {
        let init = es.drop_last();
        assert forall|i: int| 0 <= i < init.len() implies event_nesting_fits(#[trigger] init[i]) by {
            assert(init[i] == es[i]);
        }
        lemma_events_text_layout(init);
        assert(event_nesting_fits(es.last()));
        lemma_event_text_block(es.last());
        lemma_written_lines_append(section_layout(init), event_block(es.last()));
        lemma_text_of_lines_append(
            written_lines(section_layout(init)),
            written_lines(event_block(es.last())),
        );
    }
}

/// A command whose lines read back: its own line, and those of its inner
/// commands.
pub open spec fn command_clean(c: Command) -> bool
    decreases c,
{
    command_head_clean(c) && match c {
        Command::LoopCommand(x) => forall|i: int|
            0 <= i < x.inner_commands@.len() ==> command_clean(#[trigger] x.inner_commands@[i]),
        Command::TriggerCommand(x) => forall|i: int|
            0 <= i < x.inner_commands@.len() ==> command_clean(#[trigger] x.inner_commands@[i]),
        _ => true,
    }
}

/// An event whose lines read back: not a background (whose line is written
/// under a name that reads as no event), with a clean line of its own and
/// clean commands.
pub open spec fn event_clean(e: Event) -> bool {
    &&& !(e is Background)
    &&& event_head_clean(e)
    &&& forall|i: int|
        0 <= i < event_commands(e).len() ==> command_clean(#[trigger] event_commands(e)[i])
}

/// Every line of a clean command's layout is a clean command line.
proof fn lemma_command_layout_clean(c: Command, t: nat)
    requires
        command_clean(c),
    ensures
        forall|k: int|
            0 <= k < command_layout(c, t).len() ==> command_head_clean(
                (#[trigger] command_layout(c, t)[k]).0,
            ),
    decreases c, 1nat,
{
    let l = command_layout(c, t);
    match c {
        Command::LoopCommand(x) => {
            let inner = x.inner_commands@;
            lemma_commands_layout_clean(inner, t + 1, inner.len());
            let r = commands_layout(inner, t + 1, inner.len());
            assert forall|k: int| 0 <= k < l.len() implies command_head_clean((#[trigger] l[k]).0) by {
                if k > 0 {
                    assert(l[k] == r[k - 1]);
                }
            }
        },
        Command::TriggerCommand(x) => {
            let inner = x.inner_commands@;
            lemma_commands_layout_clean(inner, t + 1, inner.len());
            let r = commands_layout(inner, t + 1, inner.len());
            assert forall|k: int| 0 <= k < l.len() implies command_head_clean((#[trigger] l[k]).0) by {
                if k > 0 {
                    assert(l[k] == r[k - 1]);
                }
            }
        },
        _ => {
            assert(l =~= seq![(c, t)]);
        },
    }
}

/// Every line of the layout of clean commands is a clean command line.
proof fn lemma_commands_layout_clean(cs: Seq<Command>, t: nat, n: nat)
    requires
        forall|i: int| 0 <= i < cs.len() ==> command_clean(#[trigger] cs[i]),
    ensures
        forall|k: int|
            0 <= k < commands_layout(cs, t, n).len() ==> command_head_clean(
                (#[trigger] commands_layout(cs, t, n)[k]).0,
            ),
    decreases cs, n,
{
    if n > 0 && n <= cs.len() {
        lemma_commands_layout_clean(cs, t, (n - 1) as nat);
        assert(command_clean(cs[n - 1]));
        lemma_command_layout_clean(cs[n - 1], t);
        let a = commands_layout(cs, t, (n - 1) as nat);
        let b = command_layout(cs[n - 1], t);
        let l = commands_layout(cs, t, n);
        assert forall|k: int| 0 <= k < l.len() implies command_head_clean((#[trigger] l[k]).0) by {
            if k < a.len() {
                assert(l[k] == a[k]);
            } else {
                assert(l[k] == b[k - a.len()]);
            }
        }
    }
}

/// The written lines of clean events are trimmed, on one line and not empty.
pub proof fn lemma_section_lines_trimmed(es: Seq<Event>)
    requires
        forall|i: int| 0 <= i < es.len() ==> event_clean(#[trigger] es[i]) && event_nesting_fits(es[i]),
    ensures
        forall|k: int|
            0 <= k < written_lines(section_layout(es)).len() ==> one_line(
                #[trigger] written_lines(section_layout(es))[k],
            ) && is_trimmed(written_lines(section_layout(es))[k]) && written_lines(
                section_layout(es),
            )[k].len() > 0,
{
    let r = section_layout(es);
    lemma_section_entries_clean(es);
    assert forall|k: int| 0 <= k < written_lines(r).len() implies one_line(
        #[trigger] written_lines(r)[k],
    ) && is_trimmed(written_lines(r)[k]) && written_lines(r)[k].len() > 0 by {
        assert(entry_clean(r[k]));
        lemma_entry_reads_back(r[k], r[k]);
    }
}

/// A line of the layout whose written line reads back.
pub open spec fn entry_clean(el: EventLine) -> bool {
    match el {
        EventLine::Event(e) => event_head_clean(e) && !(e is Background),
        EventLine::Command(cw) => command_head_clean(cw.command) && 0 <= cw.tab_count,
    }
}

/// The lines of clean events are clean.
proof fn lemma_section_entries_clean(es: Seq<Event>)
    requires
        forall|i: int| 0 <= i < es.len() ==> event_clean(#[trigger] es[i]) && event_nesting_fits(es[i]),
    ensures
        forall|k: int| 0 <= k < section_layout(es).len() ==> entry_clean(#[trigger] section_layout(es)[k]),
    decreases es.len(),
{
    if es.len() > 0 {
        let init = es.drop_last();
        assert forall|i: int| 0 <= i < init.len() implies event_clean(#[trigger] init[i])
            && event_nesting_fits(init[i]) by {
            assert(init[i] == es[i]);
        }
        lemma_section_entries_clean(init);
        let e = es.last();
        assert(event_clean(e) && event_nesting_fits(e));
        let cs = event_commands(e);
        assert forall|i: int| 0 <= i < cs.len() implies nesting_fits(#[trigger] cs[i], i32::MAX - 1) by {
            match e {
                Event::Sprite(x) => {
                    assert(nesting_fits(x.commands@[i], i32::MAX - 1));
                },
                Event::Animation(x) => {
                    assert(nesting_fits(x.commands@[i], i32::MAX - 1));
                },
                _ => {},
            }
        }
        lemma_commands_layout_tabs(cs, 1, cs.len());
        lemma_commands_layout_clean(cs, 1, cs.len());
        let l = commands_layout(cs, 1, cs.len());
        let a = section_layout(init);
        let b = event_block(e);
        let s = section_layout(es);
        assert forall|k: int| 0 <= k < s.len() implies entry_clean(#[trigger] s[k]) by {
            if k < a.len() {
                assert(s[k] == a[k]);
            } else if k == a.len() {
                assert(s[k] == b[0]);
            } else {
                assert(s[k] == b[k - a.len()]);
                assert(b[k - a.len()] == layout_entry(l[k - a.len() - 1]));
                assert(1 <= l[k - a.len() - 1].1 <= i32::MAX);
            }
        }
    }
}

/// `el` is what the reader makes of the line of the layout `r`: the same
/// kind, the same head, the same indentation.
pub open spec fn reads_as_entry(el: EventLine, r: EventLine) -> bool {
    match r {
        EventLine::Event(e) => el matches EventLine::Event(d) && same_event_head(d, e),
        EventLine::Command(cw) => el matches EventLine::Command(a) && a.tab_count == cw.tab_count
            && same_command_head(a.command, cw.command),
    }
}

/// A clean line of the layout is written as a valid content line on its own,
/// and reads back as itself.
proof fn lemma_entry_reads_back(r: EventLine, el: EventLine)
    requires
        entry_clean(r),
    ensures
        one_line(written_line(r)),
        strip_cr(written_line(r)) == written_line(r),
        event_content(written_line(r)) == written_line(r),
        written_line(r).len() > 0,
        is_trimmed(written_line(r)),
        event_line_ok(written_line(r)),
        event_line_matches(el, written_line(r)) ==> reads_as_entry(el, r),
{
    match r {
        EventLine::Event(e) => {
            lemma_event_line_shape(e);
            lemma_event_decode(e, el);
        },
        EventLine::Command(cw) => {
            let t = cw.tab_count as nat;
            assert(t as i32 == cw.tab_count);
            lemma_command_line_shape(cw.command, t);
            lemma_command_decode(cw.command, t, el);
        },
    }
}

/// Lines that are their own, non-empty, content are the content lines.
proof fn lemma_event_contents_all(ls: Seq<Seq<char>>)
    requires
        forall|i: int| 0 <= i < ls.len() ==> event_content(#[trigger] ls[i]) == ls[i] && ls[i].len() > 0,
    ensures
        event_contents(ls) == ls,
    decreases ls.len(),
{
    if ls.len() == 0 {
        assert(event_contents(ls) =~= ls);
    } else {
        let init = ls.drop_last();
        assert forall|i: int| 0 <= i < init.len() implies event_content(#[trigger] init[i]) == init[i]
            && init[i].len() > 0 by {
            assert(init[i] == ls[i]);
        }
        lemma_event_contents_all(init);
        assert(event_content(ls.last()) == ls.last() && ls.last().len() > 0);
        assert(init.push(ls.last()) =~= ls);
    }
}

/// Lines of the same kinds, one by one, have their events at the same places.
proof fn lemma_event_indices_kinds(a: Seq<EventLine>, b: Seq<EventLine>)
    requires
        a.len() == b.len(),
        forall|k: int| 0 <= k < a.len() ==> ((#[trigger] a[k]) is Event <==> b[k] is Event),
    ensures
        event_indices(a) == event_indices(b),
    decreases a.len(),
{
    if a.len() > 0 {
        let a0 = a.drop_last();
        let b0 = b.drop_last();
        assert forall|k: int| 0 <= k < a0.len() implies ((#[trigger] a0[k]) is Event <==> b0[k] is Event) by {
            assert(a0[k] == a[k] && b0[k] == b[k]);
        }
        lemma_event_indices_kinds(a0, b0);
        assert(a.last() is Event <==> b.last() is Event);
    }
}

/// Lines followed by an event line and command lines have one event more, at
/// the place where those lines start.
proof fn lemma_event_indices_block(a: Seq<EventLine>, b: Seq<EventLine>)
    requires
        b.len() >= 1,
        b[0] is Event,
        forall|k: int| 1 <= k < b.len() ==> (#[trigger] b[k]) is Command,
    ensures
        event_indices(a + b) == event_indices(a).push(a.len() as int),
    decreases b.len(),
{
    if b.len() == 1 {
        assert((a + b).drop_last() =~= a);
        assert((a + b).last() == b[0]);
    } else {
        let b0 = b.drop_last();
        assert forall|k: int| 1 <= k < b0.len() implies (#[trigger] b0[k]) is Command by {
            assert(b0[k] == b[k]);
        }
        lemma_event_indices_block(a, b0);
        assert((a + b).drop_last() =~= a + b0);
        assert((a + b).last() == b[b.len() - 1]);
    }
}

/// An event's block: its own line, then command lines.
proof fn lemma_event_block_kinds(e: Event)
    ensures
        event_block(e).len() >= 1,
        event_block(e)[0] == EventLine::Event(e),
        forall|k: int| 1 <= k < event_block(e).len() ==> (#[trigger] event_block(e)[k]) is Command,
{
    let cs = event_commands(e);
    let l = commands_layout(cs, 1, cs.len());
    let b = event_block(e);
    assert forall|k: int| 1 <= k < b.len() implies (#[trigger] b[k]) is Command by {
        assert(b[k] == layout_entry(l[k - 1]));
    }
}

/// The layout of the first events starts the layout of all of them.
proof fn lemma_section_layout_prefix(es: Seq<Event>, m: int)
    requires
        0 <= m <= es.len(),
    ensures
        section_layout(es.take(m)).len() <= section_layout(es).len(),
        forall|k: int|
            0 <= k < section_layout(es.take(m)).len() ==> #[trigger] section_layout(es.take(m))[k]
                == section_layout(es)[k],
    decreases es.len() - m,
{
    if m == es.len() {
        assert(es.take(m) =~= es);
    } else {
        lemma_section_layout_prefix(es, m + 1);
        let a = es.take(m);
        let b = es.take(m + 1);
        assert(b.drop_last() =~= a);
        assert forall|k: int| 0 <= k < section_layout(a).len() implies #[trigger] section_layout(a)[k]
            == section_layout(es)[k] by {
            assert(section_layout(a)[k] == section_layout(b)[k]);
        }
    }
}

/// The event lines of the layout are where each event's block starts.
proof fn lemma_section_layout_indices(es: Seq<Event>)
    ensures
        event_indices(section_layout(es)).len() == es.len(),
        forall|q: int|
            0 <= q < es.len() ==> #[trigger] event_indices(section_layout(es))[q] == section_layout(
                es.take(q),
            ).len(),
    decreases es.len(),
{
    if es.len() > 0 {
        let init = es.drop_last();
        lemma_section_layout_indices(init);
        lemma_event_block_kinds(es.last());
        lemma_event_indices_block(section_layout(init), event_block(es.last()));
        let idx = event_indices(section_layout(es));
        assert forall|q: int| 0 <= q < es.len() implies #[trigger] idx[q] == section_layout(
            es.take(q),
        ).len() by {
            if q < init.len() {
                assert(es.take(q) =~= init.take(q));
            } else {
                assert(es.take(q) =~= init);
            }
        }
    }
}

/// `a` and `b` are the same event: the same kind with the same values, and
/// the same commands.
pub open spec fn same_event(a: Event, b: Event) -> bool {
    match (a, b) {
        (Event::Background(x), Event::Background(y)) => x.start_time@ == y.start_time@
            && x.file_path@ == y.file_path@ && x.x@ == y.x@ && x.y@ == y.y@,
        (Event::Video(x), Event::Video(y)) => x.start_time@ == y.start_time@ && x.file_path@
            == y.file_path@ && x.x@ == y.x@ && x.y@ == y.y@,
        (Event::Break(x), Event::Break(y)) => x.start_time@ == y.start_time@ && x.end_time@
            == y.end_time@,
        (Event::Sprite(x), Event::Sprite(y)) => x.layer@ == y.layer@ && x.origin@ == y.origin@
            && x.file_path@ == y.file_path@ && x.x@ == y.x@ && x.y@ == y.y@ && x.commands@.len()
            == y.commands@.len() && forall|i: int|
            0 <= i < x.commands@.len() ==> same_command(#[trigger] x.commands@[i], y.commands@[i]),
        (Event::Animation(x), Event::Animation(y)) => x.layer@ == y.layer@ && x.origin@
            == y.origin@ && x.file_path@ == y.file_path@ && x.x@ == y.x@ && x.y@ == y.y@
            && x.frame_count@ == y.frame_count@ && x.frame_delay@ == y.frame_delay@
            && x.loop_type@ == y.loop_type@ && x.commands@.len() == y.commands@.len() && forall|
            i: int,
        |
            0 <= i < x.commands@.len() ==> same_command(#[trigger] x.commands@[i], y.commands@[i]),
        _ => false,
    }
}

/// Where the lines read as the layout of `es`, the `q`-th event that the
/// reader builds is the `q`-th of `es`.
proof fn lemma_event_read_back(es: Seq<Event>, els: Seq<EventLine>, evs: Seq<Event>, q: int)
    requires
        forall|i: int| 0 <= i < es.len() ==> event_clean(#[trigger] es[i]) && event_nesting_fits(es[i]),
        els.len() == section_layout(es).len(),
        forall|k: int| 0 <= k < els.len() ==> reads_as_entry(#[trigger] els[k], section_layout(es)[k]),
        event_indices(els) == event_indices(section_layout(es)),
        events_match(evs, els),
        0 <= q < es.len(),
    ensures
        same_event(evs[q], es[q]),
{
    lemma_section_layout_indices(es);
    let r = section_layout(es);
    let idx = event_indices(els);
    let e = es[q];
    let s = section_layout(es.take(q)).len() as int;
    let blk = event_block(e);
    lemma_event_block_kinds(e);
    lemma_section_layout_prefix(es, q + 1);
    assert(es.take(q + 1).drop_last() =~= es.take(q));
    assert(es.take(q + 1).last() == e);
    let nx = s + blk.len();
    assert(section_layout(es.take(q + 1)).len() == nx);
    let p1 = section_layout(es.take(q + 1));
    assert(p1 == section_layout(es.take(q)) + blk);
    assert forall|i: int| s <= i < nx implies #[trigger] r[i] == blk[i - s] by {
        assert(p1[i] == r[i]);
    }
    assert(idx[q] == s);
    assert(next_index(idx, q, els.len() as int) == nx) by {
        if q + 1 >= es.len() {
            assert(es.take(q + 1) =~= es);
        }
    }
    assert(r[s] == blk[0]);
    assert(reads_as_entry(els[s], r[s]));
    let f = command_lines(els.subrange(s + 1, nx));
    let cs = event_commands(e);
    let l = commands_layout(cs, 1, cs.len());
    assert(reads_as_layout(f, l)) by {
        assert forall|k: int| 0 <= k < f.len() implies (#[trigger] f[k]).tab_count == l[k].1 as i32
            && same_command_head(f[k].command, l[k].0) by {
            assert(f[k] == line_command(els[s + 1 + k]));
            assert(r[s + 1 + k] == blk[s + 1 + k - s]);
            assert(blk[1 + k] == layout_entry(l[k]));
            assert(reads_as_entry(els[s + 1 + k], r[s + 1 + k]));
        }
    }
    assert(event_clean(e) && event_nesting_fits(e));
    assert forall|i: int| 0 <= i < cs.len() implies nesting_fits(#[trigger] cs[i], i32::MAX - 1) by {
        match e {
            Event::Sprite(x) => {
                assert(nesting_fits(x.commands@[i], i32::MAX - 1));
            },
            Event::Animation(x) => {
                assert(nesting_fits(x.commands@[i], i32::MAX - 1));
            },
            _ => {},
        }
    }
    match evs[q] {
        Event::Sprite(x) => {
            if e is Sprite {
                lemma_commands_read_back(x.commands@, f, cs, 1);
            }
        },
        Event::Animation(x) => {
            if e is Animation {
                lemma_commands_read_back(x.commands@, f, cs, 1);
            }
        },
        _ => {},
    }
}

/// Reading the `[Events]` lines that `EventsSection::to_osu_text` writes gives
/// back the events, where each is clean (its texts on one line, without commas,
/// `//` or whitespace at their ends; no background, whose line is written under
/// a name that reads as no event) and its commands nest no deeper than
/// indentation can count: every line is accepted, and whatever lines and events
/// the reader makes of them are the events written, each with its commands
/// nested as they were.
pub proof fn lemma_events_roundtrip(es: Seq<Event>, els: Seq<EventLine>, evs: Seq<Event>)
    requires
        forall|i: int| 0 <= i < es.len() ==> event_clean(#[trigger] es[i]) && event_nesting_fits(es[i]),
    ensures
        events_section_ok(events_text(es)),
        event_lines_match(els, event_contents(lines(events_text(es)))) && events_match(evs, els)
            ==> evs.len() == es.len() && forall|i: int|
            0 <= i < es.len() ==> same_event(#[trigger] evs[i], es[i]),
{
    let r = section_layout(es);
    let w = written_lines(r);
    lemma_events_text_layout(es);
    lemma_section_entries_clean(es);
    assert forall|k: int| 0 <= k < w.len() implies one_line(#[trigger] w[k]) && strip_cr(w[k]) == w[k]
        && event_content(w[k]) == w[k] && w[k].len() > 0 && event_line_ok(w[k]) by {
        assert(entry_clean(r[k]));
        lemma_entry_reads_back(r[k], r[k]);
    }
    lemma_lines_of_text(w);
    lemma_event_contents_all(w);
    assert(event_contents(lines(events_text(es))) == w);
    if event_lines_match(els, w) && events_match(evs, els) {
        assert forall|k: int| 0 <= k < els.len() implies reads_as_entry(#[trigger] els[k], r[k]) by {
            assert(entry_clean(r[k]));
            lemma_entry_reads_back(r[k], els[k]);
            assert(event_line_matches(els[k], w[k]));
        }
        assert forall|k: int| 0 <= k < els.len() implies ((#[trigger] els[k]) is Event <==> r[k] is Event) by {
            assert(reads_as_entry(els[k], r[k]));
        }
        lemma_event_indices_kinds(els, r);
        lemma_section_layout_indices(es);
        assert forall|i: int| 0 <= i < es.len() implies same_event(#[trigger] evs[i], es[i]) by {
            lemma_event_read_back(es, els, evs, i);
        }
    }
}

} // verus!
