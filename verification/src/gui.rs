//! The mouse side of the editor's interface: which hitbox the pointer hovers
//! or drags, and which hitbox handlers each pointer event calls.
//!
//! Hitboxes are numbered in the order they were added; a later hitbox lies on
//! top of an earlier one. An event comes with, for each hitbox, whether it
//! contains the pointer; the handler answers with the calls to make.
use vstd::prelude::*;

verus! {

/// A mouse button, as far as the interface tells them apart.
#[derive(Clone, Copy, Debug, PartialEq, Eq, Structural)]
pub enum MouseButton {
    Left,
    Right,
    Other,
}

/// What the pointer is doing.
#[derive(Clone, Copy, Debug, PartialEq, Eq, Structural)]
pub enum Action {
    Idle,
    Dragging { left: bool, hitbox: usize },
    Hovering { hitbox: usize },
}

/// A call into a hitbox's drag or hover handler.
#[derive(Clone, Copy, Debug, PartialEq, Eq, Structural)]
pub enum HitboxCall {
    /// The pointer is over the hitbox.
    Hover(usize),
    /// The pointer left the hitbox.
    StopHover(usize),
    /// The hitbox is dragged with the left (`true`) or right button.
    Drag { hitbox: usize, left: bool },
    /// The drag of the hitbox ended.
    StopDrag(usize),
}

/// The topmost hitbox that contains the pointer: the last one whose hit test
/// passed.
pub open spec fn topmost(hits: Seq<bool>) -> Option<int>
    decreases hits.len(),
{
    if hits.len() == 0 {
        None
    } else if hits.last() {
        Some(hits.len() - 1)
    } else {
        topmost(hits.drop_last())
    }
}

/// The hitbox an action is about.
pub open spec fn action_hitbox(a: Action) -> Option<int> {
    match a {
        Action::Idle => None,
        Action::Dragging { hitbox, .. } => Some(hitbox as int),
        Action::Hovering { hitbox } => Some(hitbox as int),
    }
}

/// Hover the topmost hitbox under the pointer, if there is one.
pub open spec fn hover_topmost(hits: Seq<bool>) -> (Action, Seq<HitboxCall>) {
    match topmost(hits) {
        Some(h) => (Action::Hovering { hitbox: h as usize }, seq![HitboxCall::Hover(h as usize)]),
        None => (Action::Idle, seq![]),
    }
}

/// The pointer moved: a drag goes on; a hover moves to the topmost hitbox.
pub open spec fn after_move(a: Action, hits: Seq<bool>) -> (Action, Seq<HitboxCall>) {
    match a {
        Action::Dragging { left, hitbox } => (a, seq![HitboxCall::Drag { hitbox, left }]),
        Action::Hovering { hitbox } => match topmost(hits) {
            Some(c) => if c != hitbox {
                (
                    Action::Hovering { hitbox: c as usize },
                    seq![HitboxCall::StopHover(hitbox), HitboxCall::Hover(c as usize)],
                )
            } else {
                (a, seq![HitboxCall::Hover(hitbox)])
            },
            None => (Action::Idle, seq![HitboxCall::StopHover(hitbox)]),
        },
        Action::Idle => hover_topmost(hits),
    }
}

/// A button went down: a hovered hitbox starts being dragged.
pub open spec fn after_press(a: Action, left: bool) -> (Action, Seq<HitboxCall>) {
    match a {
        Action::Hovering { hitbox } => (
            Action::Dragging { left, hitbox },
            seq![HitboxCall::Drag { hitbox, left }],
        ),
        _ => (a, seq![]),
    }
}

/// A button went up: the drag it started ends, and the hover starts afresh.
pub open spec fn after_release(a: Action, left: bool, hits: Seq<bool>) -> (
    Action,
    Seq<HitboxCall>,
) {
    match a {
        Action::Dragging { left: drag_left, hitbox } => if drag_left == left {
            let (next, calls) = hover_topmost(hits);
            (next, seq![HitboxCall::StopDrag(hitbox), HitboxCall::StopHover(hitbox)] + calls)
        } else {
            (a, seq![])
        },
        _ => (a, seq![]),
    }
}

/// A button event: ignored while the window is unfocused and for buttons other
/// than left and right.
pub open spec fn after_button(
    a: Action,
    focused: bool,
    pressed: bool,
    button: MouseButton,
    hits: Seq<bool>,
) -> (Action, Seq<HitboxCall>) {
    if !focused || button == MouseButton::Other {
        (a, seq![])
    } else if pressed {
        after_press(a, button == MouseButton::Left)
    } else {
        after_release(a, button == MouseButton::Left, hits)
    }
}

/// Tracks the pointer over a stack of hitboxes.
pub struct MouseHandler {
    hitbox_count: usize,
    current_action: Action,
    focused: bool,
}

fn topmost_hit(hits: &Vec<bool>) -> (r: Option<usize>)
    ensures
        r matches Some(h) ==> topmost(hits@) == Some(h as int),
        r is None ==> topmost(hits@) is None,
{
    let mut i = hits.len();
    assert(hits@.take(i as int) =~= hits@);
    while i > 0
        invariant
            i <= hits.len(),
            topmost(hits@) == topmost(hits@.take(i as int)),
        decreases i,
    {
        if hits[i - 1] {
            return Some(i - 1);
        }
        assert(hits@.take(i as int).drop_last() =~= hits@.take(i - 1));
        i -= 1;
    }
    None
}

/// Every value of `topmost` names a hitbox that contains the pointer.
pub proof fn lemma_topmost_bounds(hits: Seq<bool>)
    ensures
        topmost(hits) matches Some(h) ==> 0 <= h < hits.len() && hits[h],
        topmost(hits) matches Some(h) ==> forall|k: int| h < k < hits.len() ==> !hits[k],
        topmost(hits) is None ==> forall|k: int| 0 <= k < hits.len() ==> !hits[k],
    decreases hits.len(),
{
    if hits.len() > 0 && !hits.last() {
        lemma_topmost_bounds(hits.drop_last());
        assert forall|k: int| 0 <= k < hits.len() - 1 implies hits[k] == hits.drop_last()[k] by {}
    }
}

impl MouseHandler {
    pub closed spec fn action(self) -> Action {
        self.current_action
    }

    pub closed spec fn count(self) -> nat {
        self.hitbox_count as nat
    }

    pub closed spec fn is_focused(self) -> bool {
        self.focused
    }

    #[verifier::type_invariant]
    closed spec fn hitbox_in_range(self) -> bool {
        action_hitbox(self.current_action) matches Some(h) ==> h < self.hitbox_count
    }

    /// A handler with no hitboxes, in an unfocused window.
    pub fn new() -> (r: MouseHandler)
        ensures
            r.action() == Action::Idle,
            r.count() == 0,
            !r.is_focused(),
    {
        MouseHandler { hitbox_count: 0, current_action: Action::Idle, focused: false }
    }

    /// What the pointer is doing.
    pub fn current_action(&self) -> (r: Action)
        ensures
            r == self.action(),
            action_hitbox(r) matches Some(h) ==> h < self.count(),
    {
        proof {
            use_type_invariant(self);
        }
        self.current_action
    }

    /// How many hitboxes there are.
    pub fn hitbox_count(&self) -> (r: usize)
        ensures
            r == self.count(),
    {
        self.hitbox_count
    }

    /// Whether the window has the focus.
    pub fn focused(&self) -> (r: bool)
        ensures
            r == self.is_focused(),
    {
        self.focused
    }

    pub fn handle_focused_change(&mut self, focused: bool)
        ensures
            final(self).is_focused() == focused,
            final(self).action() == old(self).action(),
            final(self).count() == old(self).count(),
    {
        proof {
            use_type_invariant(&*self);
        }
        self.focused = focused;
    }

    /// Adds a hitbox on top of the others; returns its number.
    pub fn add_hitbox(&mut self) -> (r: usize)
        requires
            old(self).count() < usize::MAX,
        ensures
            r == old(self).count(),
            final(self).count() == old(self).count() + 1,
            final(self).action() == old(self).action(),
            final(self).is_focused() == old(self).is_focused(),
    {
        proof {
            use_type_invariant(&*self);
        }
        let r = self.hitbox_count;
        self.hitbox_count = self.hitbox_count + 1;
        r
    }

    fn hover_topmost_hit(hits: &Vec<bool>) -> (r: (Action, Vec<HitboxCall>))
        ensures
            (r.0, r.1@) == hover_topmost(hits@),
            action_hitbox(r.0) matches Some(h) ==> h < hits.len(),
    {
        proof {
            lemma_topmost_bounds(hits@);
        }
        match topmost_hit(hits) {
            Some(h) => {
                let mut calls: Vec<HitboxCall> = Vec::new();
                calls.push(HitboxCall::Hover(h));
                assert(calls@ =~= seq![HitboxCall::Hover(h)]);
                (Action::Hovering { hitbox: h }, calls)
            },
            None => {
                let calls: Vec<HitboxCall> = Vec::new();
                assert(calls@ =~= Seq::<HitboxCall>::empty());
                (Action::Idle, calls)
            },
        }
    }

    /// The pointer moved; `hits[i]` tells whether hitbox `i` contains it now.
    pub fn handle_cursor_move(&mut self, hits: &Vec<bool>) -> (r: Vec<HitboxCall>)
        requires
            hits.len() == old(self).count(),
        ensures
            (final(self).action(), r@) == after_move(old(self).action(), hits@),
            final(self).count() == old(self).count(),
            final(self).is_focused() == old(self).is_focused(),
    {
        proof {
            use_type_invariant(&*self);
            lemma_topmost_bounds(hits@);
        }
        let mut calls: Vec<HitboxCall> = Vec::new();
        match self.current_action {
            Action::Dragging { left, hitbox } => {
                calls.push(HitboxCall::Drag { hitbox, left });
                assert(calls@ =~= seq![HitboxCall::Drag { hitbox, left }]);
            },
            Action::Hovering { hitbox } => match topmost_hit(hits) {
                Some(c) => {
                    if c != hitbox {
                        calls.push(HitboxCall::StopHover(hitbox));
                        calls.push(HitboxCall::Hover(c));
                        assert(calls@ =~= seq![HitboxCall::StopHover(hitbox), HitboxCall::Hover(c)]);
                        self.current_action = Action::Hovering { hitbox: c };
                    } else {
                        calls.push(HitboxCall::Hover(hitbox));
                        assert(calls@ =~= seq![HitboxCall::Hover(hitbox)]);
                    }
                },
                None => {
                    calls.push(HitboxCall::StopHover(hitbox));
                    assert(calls@ =~= seq![HitboxCall::StopHover(hitbox)]);
                    self.current_action = Action::Idle;
                },
            },
            Action::Idle => {
                let (next, found) = Self::hover_topmost_hit(hits);
                self.current_action = next;
                calls = found;
            },
        }
        calls
    }

    /// A mouse button went down (`pressed`) or up; `hits[i]` tells whether
    /// hitbox `i` contains the pointer.
    pub fn handle_mouse_input(&mut self, pressed: bool, button: MouseButton, hits: &Vec<bool>) -> (r:
        Vec<HitboxCall>)
        requires
            hits.len() == old(self).count(),
        ensures
            (final(self).action(), r@) == after_button(
                old(self).action(),
                old(self).is_focused(),
                pressed,
                button,
                hits@,
            ),
            final(self).count() == old(self).count(),
            final(self).is_focused() == old(self).is_focused(),
    {
        proof {
            use_type_invariant(&*self);
        }
        let mut calls: Vec<HitboxCall> = Vec::new();
        assert(calls@ =~= Seq::<HitboxCall>::empty());
        if !self.focused {
            return calls;
        }
        let left = match button {
            MouseButton::Left => true,
            MouseButton::Right => false,
            MouseButton::Other => {
                return calls;
            },
        };
        if pressed {
            match self.current_action {
                Action::Hovering { hitbox } => {
                    calls.push(HitboxCall::Drag { hitbox, left });
                    assert(calls@ =~= seq![HitboxCall::Drag { hitbox, left }]);
                    self.current_action = Action::Dragging { left, hitbox };
                },
                _ => {},
            }
        } else {
            match self.current_action {
                Action::Dragging { left: drag_left, hitbox } => {
                    if drag_left == left {
                        let (next, mut found) = Self::hover_topmost_hit(hits);
                        calls.push(HitboxCall::StopDrag(hitbox));
                        calls.push(HitboxCall::StopHover(hitbox));
                        let ghost head = calls@;
                        let ghost tail = found@;
                        calls.append(&mut found);
                        assert(calls@ =~= seq![
                            HitboxCall::StopDrag(hitbox),
                            HitboxCall::StopHover(hitbox),
                        ] + tail);
                        self.current_action = next;
                    }
                },
                _ => {},
            }
        }
        calls
    }
}

/// While the window is unfocused, or for a button other than left and right,
/// a button event changes nothing and calls nothing.
pub proof fn lemma_ignored_buttons(
    a: Action,
    focused: bool,
    pressed: bool,
    button: MouseButton,
    hits: Seq<bool>,
)
    requires
        !focused || button == MouseButton::Other,
    ensures
        after_button(a, focused, pressed, button, hits) == (a, Seq::<HitboxCall>::empty()),
{
}

/// A drag holds on to its hitbox: while dragging, a move sends the drag to the
/// same hitbox with the same button, wherever the pointer is.
pub proof fn lemma_drag_captures(left: bool, hitbox: usize, hits: Seq<bool>)
    ensures
        after_move(Action::Dragging { left, hitbox }, hits) == (
            Action::Dragging { left, hitbox },
            seq![HitboxCall::Drag { hitbox, left }],
        ),
{
}

/// When no drag is going on, after a move the pointer hovers the topmost
/// hitbox that contains it, or nothing when none does.
pub proof fn lemma_hover_follows_topmost(a: Action, hits: Seq<bool>)
    requires
        !(a is Dragging),
    ensures
        after_move(a, hits).0 == (match topmost(hits) {
            Some(h) => Action::Hovering { hitbox: h as usize },
            None => Action::Idle,
        }),
{
}

/// Only the button that started a drag ends it: releasing the other button
/// changes nothing and calls nothing.
pub proof fn lemma_other_button_keeps_drag(drag_left: bool, hitbox: usize, hits: Seq<bool>)
    ensures
        after_release(Action::Dragging { left: drag_left, hitbox }, !drag_left, hits) == (
            Action::Dragging { left: drag_left, hitbox },
            Seq::<HitboxCall>::empty(),
        ),
{
}

/// Pressing a button over a hitbox and releasing the same button drags the
/// hitbox once, ends the drag and its hover, and leaves the pointer hovering
/// the topmost hitbox under it.
pub proof fn lemma_click_round_trip(hitbox: usize, left: bool, hits: Seq<bool>)
    ensures
        ({
            let (pressed, down) = after_press(Action::Hovering { hitbox }, left);
            let (released, up) = after_release(pressed, left, hits);
            &&& down == seq![HitboxCall::Drag { hitbox, left }]
            &&& up == seq![HitboxCall::StopDrag(hitbox), HitboxCall::StopHover(hitbox)]
                + hover_topmost(hits).1
            &&& released == hover_topmost(hits).0
        }),
{
}

/// Whether a call ends the hover or the drag of a hitbox.
pub open spec fn ends(c: HitboxCall) -> Option<int> {
    match c {
        HitboxCall::StopHover(h) => Some(h as int),
        HitboxCall::StopDrag(h) => Some(h as int),
        _ => None,
    }
}

/// Handlers are only told to stop about the hitbox the pointer was on: every
/// stop call of a move or button event names the hitbox of the action before
/// it.
pub proof fn lemma_stops_name_current(
    a: Action,
    focused: bool,
    pressed: bool,
    button: MouseButton,
    hits: Seq<bool>,
)
    ensures
        forall|i: int|
            0 <= i < after_move(a, hits).1.len() ==> (#[trigger] ends(after_move(a, hits).1[i])
                matches Some(h) ==> action_hitbox(a) == Some(h)),
        forall|i: int|
            0 <= i < after_button(a, focused, pressed, button, hits).1.len() ==> (
            #[trigger] ends(after_button(a, focused, pressed, button, hits).1[i]) matches Some(h)
                ==> action_hitbox(a) == Some(h)),
{
    let b = after_button(a, focused, pressed, button, hits).1;
    assert forall|i: int| 0 <= i < b.len() implies (#[trigger] ends(b[i]) matches Some(h)
        ==> action_hitbox(a) == Some(h)) by {
        if a is Dragging && focused && button != MouseButton::Other && !pressed {
            let (_, calls) = hover_topmost(hits);
            assert(calls.len() == 0 || calls == seq![HitboxCall::Hover(topmost(hits)->0 as usize)]);
            if i >= 2 {
                assert(b[i] == calls[i - 2]);
            }
        }
    }
}

/// A drag belongs to the button that started it: pressing any button while a
/// drag is going on changes neither the action nor calls any handler.
pub proof fn lemma_press_keeps_drag(
    left: bool,
    hitbox: usize,
    focused: bool,
    button: MouseButton,
    hits: Seq<bool>,
)
    ensures
        after_button(Action::Dragging { left, hitbox }, focused, true, button, hits) == (
            Action::Dragging { left, hitbox },
            Seq::<HitboxCall>::empty(),
        ),
{
}

/// Whether a button is the one a drag with `left` was started with.
pub open spec fn is_drag_button(button: MouseButton, left: bool) -> bool {
    if left {
        button == MouseButton::Left
    } else {
        button == MouseButton::Right
    }
}

/// A drag ends exactly when the window is focused and the button that
/// started it goes up: then the drag's hitbox is told first that its drag
/// and its hover end, and no drag is left; any other release keeps the drag
/// and calls nothing.
pub proof fn lemma_release_ends_own_drag(
    left: bool,
    hitbox: usize,
    focused: bool,
    button: MouseButton,
    hits: Seq<bool>,
)
    ensures
        ({
            let (next, calls) = after_button(
                Action::Dragging { left, hitbox },
                focused,
                false,
                button,
                hits,
            );
            if focused && is_drag_button(button, left) {
                &&& !(next is Dragging)
                &&& calls.len() >= 2
                &&& calls[0] == HitboxCall::StopDrag(hitbox)
                &&& calls[1] == HitboxCall::StopHover(hitbox)
            } else {
                next == Action::Dragging { left, hitbox } && calls.len() == 0
            }
        }),
{
}

/// Pressing a second button during a drag, then releasing the button that
/// started the drag, still ends the drag on its hitbox.
pub proof fn lemma_second_button_then_release(
    left: bool,
    hitbox: usize,
    other: MouseButton,
    hits: Seq<bool>,
)
    ensures
        ({
            let start = if left { MouseButton::Left } else { MouseButton::Right };
            let (mid, pressed_calls) = after_button(
                Action::Dragging { left, hitbox },
                true,
                true,
                other,
                hits,
            );
            let (end, released_calls) = after_button(mid, true, false, start, hits);
            &&& pressed_calls.len() == 0
            &&& !(end is Dragging)
            &&& released_calls.len() >= 1 && released_calls[0] == HitboxCall::StopDrag(hitbox)
        }),
{
}

} // verus!
