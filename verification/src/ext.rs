//! Small extensions: toggling booleans and the summary of held keys.

use vstd::prelude::*;

verus! {

/// Extensions for booleans.
pub trait BoolExt {
    /// What the value stands for in contracts.
    spec fn truth(&self) -> bool;

    /// Toggle the value: `true` becomes `false` and the other way round.
    fn toggle(&mut self)
        ensures
            final(self).truth() == !old(self).truth(),
    ;
}

impl BoolExt for bool {
    open spec fn truth(&self) -> bool {
        *self
    }

    fn toggle(&mut self) {
        *self = !*self;
    }
}

/// The sign of a number: `-1`, `0` or `1`.
pub open spec fn sign(n: int) -> int {
    if n < 0 {
        -1
    } else if n == 0 {
        0
    } else {
        1
    }
}

/// Tracks how many buttons are being pressed in specific directions.
///
/// Each field counts the keys held in the positive direction minus those held
/// in the negative one, so that several keys at once cancel or add up.
#[derive(Debug, Clone, Copy, PartialEq, Eq, Structural)]
pub struct InputState {
    /// Buttons in the left-right direction.
    pub hor: i8,
    /// Buttons in the up-down direction.
    pub ver: i8,
    /// Buttons that raise or lower the throttle.
    pub throttle: i8,
}

/// A control that can be held down: each one pushes one axis one way.
#[derive(Debug, Clone, Copy, PartialEq, Eq, Structural)]
pub enum Control {
    /// Pushes the up-down axis up.
    Up,
    /// Pushes the up-down axis down.
    Down,
    /// Pushes the left-right axis to the left.
    Left,
    /// Pushes the left-right axis to the right.
    Right,
    /// Raises the throttle.
    ThrottleUp,
    /// Lowers the throttle.
    ThrottleDown,
}

/// The input with one counter moved by `by`; the control says which.
pub open spec fn nudged(input: InputState, control: Control, by: int) -> InputState {
    match control {
        Control::Up => InputState { ver: (input.ver + by) as i8, ..input },
        Control::Down => InputState { ver: (input.ver - by) as i8, ..input },
        Control::Left => InputState { hor: (input.hor - by) as i8, ..input },
        Control::Right => InputState { hor: (input.hor + by) as i8, ..input },
        Control::ThrottleUp => InputState { throttle: (input.throttle + by) as i8, ..input },
        Control::ThrottleDown => InputState { throttle: (input.throttle - by) as i8, ..input },
    }
}

/// Whether the counter that the control moves can take one more step in the
/// direction `by` (`1` or `-1`) without leaving the range of its type.
pub open spec fn has_room(input: InputState, control: Control, by: int) -> bool {
    match control {
        Control::Up => i8::MIN <= input.ver + by <= i8::MAX,
        Control::Down => i8::MIN <= input.ver - by <= i8::MAX,
        Control::Left => i8::MIN <= input.hor - by <= i8::MAX,
        Control::Right => i8::MIN <= input.hor + by <= i8::MAX,
        Control::ThrottleUp => i8::MIN <= input.throttle + by <= i8::MAX,
        Control::ThrottleDown => i8::MIN <= input.throttle - by <= i8::MAX,
    }
}

/// Letting go of a control undoes pressing it, and pressing undoes letting go.
pub proof fn lemma_press_release(input: InputState, control: Control)
    ensures
        has_room(input, control, 1) ==> nudged(nudged(input, control, 1), control, -1) == input,
        has_room(input, control, -1) ==> nudged(nudged(input, control, -1), control, 1) == input,
{
}

/// Controls that push an axis in opposite directions cancel: with both held
/// the axis is where it was.
pub proof fn lemma_opposites_cancel(input: InputState)
    ensures
        has_room(input, Control::Up, 1) ==> nudged(
            nudged(input, Control::Up, 1),
            Control::Down,
            1,
        ) == input,
        has_room(input, Control::Right, 1) ==> nudged(
            nudged(input, Control::Right, 1),
            Control::Left,
            1,
        ) == input,
        has_room(input, Control::ThrottleUp, 1) ==> nudged(
            nudged(input, Control::ThrottleUp, 1),
            Control::ThrottleDown,
            1,
        ) == input,
{
}

impl Default for InputState {
    fn default() -> (s: Self)
        ensures
            s.hor == 0,
            s.ver == 0,
            s.throttle == 0,
    {
        InputState { hor: 0, ver: 0, throttle: 0 }
    }
}

fn signum(n: i8) -> (s: i8)
    ensures
        s == sign(n as int),
{
    if n < 0 {
        -1
    } else if n == 0 {
        0
    } else {
        1
    }
}

impl InputState {
    /// Returns `-1`, `0` or `1` depending on whether `self.hor` is negative, zero or positive.
    pub fn hor(&self) -> (axis: i8)
        ensures
            axis == sign(self.hor as int),
    {
        signum(self.hor)
    }

    /// Returns `-1`, `0` or `1` depending on whether `self.ver` is negative, zero or positive.
    pub fn ver(&self) -> (axis: i8)
        ensures
            axis == sign(self.ver as int),
    {
        signum(self.ver)
    }

    /// Returns `-1`, `0` or `1` depending on whether `self.throttle` is negative, zero or positive.
    pub fn throttle(&self) -> (axis: i8)
        ensures
            axis == sign(self.throttle as int),
    {
        signum(self.throttle)
    }

    /// Whether `press` may be called with this control: the counter that it
    /// moves is not at the end of its range.
    pub fn can_press(&self, control: Control) -> (ok: bool)
        ensures
            ok == has_room(*self, control, 1),
    {
        match control {
            Control::Up => self.ver < i8::MAX,
            Control::Down => self.ver > i8::MIN,
            Control::Left => self.hor > i8::MIN,
            Control::Right => self.hor < i8::MAX,
            Control::ThrottleUp => self.throttle < i8::MAX,
            Control::ThrottleDown => self.throttle > i8::MIN,
        }
    }

    /// Whether `release` may be called with this control.
    pub fn can_release(&self, control: Control) -> (ok: bool)
        ensures
            ok == has_room(*self, control, -1),
    {
        match control {
            Control::Up => self.ver > i8::MIN,
            Control::Down => self.ver < i8::MAX,
            Control::Left => self.hor < i8::MAX,
            Control::Right => self.hor > i8::MIN,
            Control::ThrottleUp => self.throttle > i8::MIN,
            Control::ThrottleDown => self.throttle < i8::MAX,
        }
    }

    /// A control went down: its axis takes one step in its direction.
    pub fn press(&mut self, control: Control)
        requires
            has_room(*old(self), control, 1),
        ensures
            *final(self) == nudged(*old(self), control, 1),
    {
        match control {
            Control::Up => self.ver += 1,
            Control::Down => self.ver -= 1,
            Control::Left => self.hor -= 1,
            Control::Right => self.hor += 1,
            Control::ThrottleUp => self.throttle += 1,
            Control::ThrottleDown => self.throttle -= 1,
        }
    }

    /// A control came up: its axis takes one step back.
    pub fn release(&mut self, control: Control)
        requires
            has_room(*old(self), control, -1),
        ensures
            *final(self) == nudged(*old(self), control, -1),
    {
        match control {
            Control::Up => self.ver -= 1,
            Control::Down => self.ver += 1,
            Control::Left => self.hor += 1,
            Control::Right => self.hor -= 1,
            Control::ThrottleUp => self.throttle -= 1,
            Control::ThrottleDown => self.throttle += 1,
        }
    }
}

} // verus!
