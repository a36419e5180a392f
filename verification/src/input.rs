//! Pointer input: a press either stays a tap or, once the pointer has moved far enough,
//! becomes a drag that selects the units inside the dragged circle.
//!
//! Positions are of the engine's type `P`; the engine tells whether a motion went
//! beyond the drag threshold from the press point.
use vstd::prelude::*;

verus! {

/// Where the pointer interaction stands.
#[derive(Clone, Copy)]
pub enum InputMode<P> {
    Idle,
    /// The left button is down at `origin` and the pointer has not moved far yet.
    PressDown { origin: P },
    /// The pointer is being dragged from `origin`; it is now at `current`.
    Dragging { origin: P, current: P },
}

/// What a button event asks the game to do.
#[derive(Clone, Copy)]
pub enum PointerAction<P> {
    Nothing,
    /// A short tap at the press point.
    Tap(P),
    /// Select the units in the circle spanned by the drag from `origin` to `current`.
    SelectCircle { origin: P, current: P },
}

/// The mode and the action after a button event. Only the left button counts; pressing
/// it starts a press at the pointer, releasing it ends the interaction: a press ends in a
/// tap at its origin, a drag in a circle selection.
pub open spec fn after_button<P>(mode: InputMode<P>, is_left: bool, pressed: bool, pos: P) -> (
    InputMode<P>,
    PointerAction<P>,
) {
    if !is_left {
        (mode, PointerAction::Nothing)
    } else if pressed {
        (InputMode::PressDown { origin: pos }, PointerAction::Nothing)
    } else {
        (
            InputMode::Idle,
            match mode {
                InputMode::PressDown { origin } => PointerAction::Tap(origin),
                InputMode::Dragging { origin, current } => PointerAction::SelectCircle {
                    origin,
                    current,
                },
                InputMode::Idle => PointerAction::Nothing,
            },
        )
    }
}

/// The mode after the pointer moved to `pos`; `beyond_threshold` tells whether `pos` is
/// farther than the drag threshold from the press point. A press turns into a drag once
/// the pointer goes beyond the threshold; a drag follows the pointer.
pub open spec fn after_motion<P>(mode: InputMode<P>, pos: P, beyond_threshold: bool) -> InputMode<
    P,
> {
    match mode {
        InputMode::PressDown { origin } => if beyond_threshold {
            InputMode::Dragging { origin, current: pos }
        } else {
            mode
        },
        InputMode::Dragging { origin, current } => InputMode::Dragging { origin, current: pos },
        InputMode::Idle => InputMode::Idle,
    }
}

/// Applies a button event to `mode` and returns the action it asks for, as
/// `after_button` says.
pub fn button_step<P: Copy>(mode: &mut InputMode<P>, is_left: bool, pressed: bool, pos: P) -> (act:
    PointerAction<P>)
    ensures
        (*final(mode), act) == after_button(*old(mode), is_left, pressed, pos),
{
    if !is_left {
        return PointerAction::Nothing;
    }
    if pressed {
        *mode = InputMode::PressDown { origin: pos };
        PointerAction::Nothing
    } else {
        let act = match *mode {
            InputMode::PressDown { origin } => PointerAction::Tap(origin),
            InputMode::Dragging { origin, current } => PointerAction::SelectCircle {
                origin,
                current,
            },
            InputMode::Idle => PointerAction::Nothing,
        };
        *mode = InputMode::Idle;
        act
    }
}

/// Applies a pointer motion to `mode`, as `after_motion` says.
pub fn motion_step<P: Copy>(mode: &mut InputMode<P>, pos: P, beyond_threshold: bool)
    ensures
        *final(mode) == after_motion(*old(mode), pos, beyond_threshold),
{
    match *mode {
        InputMode::PressDown { origin } => {
            if beyond_threshold {
                *mode = InputMode::Dragging { origin, current: pos };
            }
        },
        InputMode::Dragging { origin, current } => {
            *mode = InputMode::Dragging { origin, current: pos };
        },
        InputMode::Idle => {},
    }
}

/// Releasing the left button always ends the interaction.
pub proof fn lemma_release_idles<P>(mode: InputMode<P>, pos: P)
    ensures
        after_button(mode, true, false, pos).0 == InputMode::<P>::Idle,
{
}

/// Other buttons change nothing.
pub proof fn lemma_other_buttons_ignored<P>(mode: InputMode<P>, pressed: bool, pos: P)
    ensures
        after_button(mode, false, pressed, pos) == (mode, PointerAction::<P>::Nothing),
{
}

/// A press followed by small motions and a release is a tap at the press point.
pub proof fn lemma_press_release_taps<P>(mode: InputMode<P>, p: P, c: P, q: P)
    ensures
        after_button(after_button(mode, true, true, p).0, true, false, q) == (
            InputMode::<P>::Idle,
            PointerAction::Tap(p),
        ),
        after_button(after_motion(after_button(mode, true, true, p).0, c, false), true, false, q)
            == (InputMode::<P>::Idle, PointerAction::Tap(p)),
{
}

/// A press, a motion beyond the threshold and further motions end, on release, in a
/// selection of the circle from the press point to the last pointer position.
pub proof fn lemma_drag_release_selects<P>(
    mode: InputMode<P>,
    p: P,
    c: P,
    d: P,
    beyond: bool,
    q: P,
)
    ensures
        ({
            let pressed = after_button(mode, true, true, p).0;
            let dragged = after_motion(after_motion(pressed, c, true), d, beyond);
            &&& dragged == InputMode::Dragging { origin: p, current: d }
            &&& after_button(dragged, true, false, q) == (
                InputMode::<P>::Idle,
                PointerAction::SelectCircle { origin: p, current: d },
            )
        }),
{
}

/// What each button event does, from any mode: a left press always starts a press at the
/// pointer and asks for nothing; a left release always ends in `Idle` and asks for a tap
/// at the press point after a press, a circle selection after a drag, and nothing when
/// idle.
pub proof fn lemma_button_events<P>(mode: InputMode<P>, pos: P, o: P, c: P)
    ensures
        after_button(mode, true, true, pos) == (
            (InputMode::PressDown { origin: pos }),
            PointerAction::<P>::Nothing,
        ),
        after_button((InputMode::PressDown { origin: o }), true, false, pos) == (
            InputMode::<P>::Idle,
            PointerAction::Tap(o),
        ),
        after_button((InputMode::Dragging { origin: o, current: c }), true, false, pos) == (
            InputMode::<P>::Idle,
            (PointerAction::SelectCircle { origin: o, current: c }),
        ),
        after_button(InputMode::<P>::Idle, true, false, pos) == (
            InputMode::<P>::Idle,
            PointerAction::<P>::Nothing,
        ),
{
}

/// What a motion does: nothing while idle; a press stays a press until the pointer goes
/// beyond the threshold, then it becomes a drag from the press point to the pointer; a
/// drag keeps its origin and follows the pointer.
pub proof fn lemma_motion_events<P>(pos: P, o: P, c: P, beyond: bool)
    ensures
        after_motion(InputMode::<P>::Idle, pos, beyond) == InputMode::<P>::Idle,
        after_motion((InputMode::PressDown { origin: o }), pos, false) == (InputMode::PressDown {
            origin: o,
        }),
        after_motion((InputMode::PressDown { origin: o }), pos, true) == (InputMode::Dragging {
            origin: o,
            current: pos,
        }),
        after_motion((InputMode::Dragging { origin: o, current: c }), pos, beyond)
            == (InputMode::Dragging { origin: o, current: pos }),
{
}

} // verus!
