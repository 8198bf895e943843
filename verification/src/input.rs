//! Turning raw joystick readings and button presses into game input.
use vstd::prelude::*;

verus! {

/// A button press counts only if more than this many milliseconds have
/// passed since the last one that counted.
pub const DELAY_BETWEEN_INTERRUPTS: u64 = 130;

/// The stick is taken to be at rest within this distance of its centre.
pub const JOYSTICK_DEADZONE: u32 = 1000;

/// An event from the input devices.
#[derive(Debug, Clone, Copy, PartialEq, Eq, Structural)]
pub enum Input {
    JoystickButton,
    Joystick(JoystickState),
}

/// Where the stick points.
#[derive(Debug, Clone, Copy, PartialEq, Eq, Structural)]
pub enum JoystickState {
    Center,
    Down,
    Left,
    Right,
    TopLeft,
    TopRight,
}

impl Default for JoystickState {
    fn default() -> (state: Self)
        ensures
            state == JoystickState::Center,
    {
        JoystickState::Center
    }
}

/// A joystick with the reading of its rest position and the state it was
/// last seen in.
pub struct Joystick {
    center_x: u16,
    center_y: u16,
    last_state: JoystickState,
}

/// The distance between two readings on one axis.
pub open spec fn distance(a: int, b: int) -> int {
    if a >= b {
        a - b
    } else {
        b - a
    }
}

/// Whether a stick that is `dx` and `dy` away from its centre is at rest.
pub open spec fn at_rest(dx: int, dy: int) -> bool {
    dx * dx + dy * dy <= JOYSTICK_DEADZONE * JOYSTICK_DEADZONE
}

/// Where a stick with centre (`cx`, `cy`) points when it reads (`x`, `y`):
/// to the side on which it is further out on the x axis than on the y axis;
/// where y is further out, down for a reading at or below the centre, and to
/// the top corner on the side of x for one above. At rest, and where both
/// axes are equally far out, it points nowhere.
pub open spec fn pointing(cx: int, cy: int, x: int, y: int) -> JoystickState {
    let dx = distance(x, cx);
    let dy = distance(y, cy);
    if at_rest(dx, dy) {
        JoystickState::Center
    } else if dx > dy {
        if x > cx {
            JoystickState::Right
        } else {
            JoystickState::Left
        }
    } else if dx < dy {
        if y <= cy {
            JoystickState::Down
        } else if x > cx {
            JoystickState::TopRight
        } else {
            JoystickState::TopLeft
        }
    } else {
        JoystickState::Center
    }
}

fn apart(a: u16, b: u16) -> (d: u16)
    ensures
        d == distance(a as int, b as int),
{
    if a >= b {
        a - b
    } else {
        b - a
    }
}

impl Joystick {
    /// The reading at rest, x then y.
    pub closed spec fn center(&self) -> (u16, u16) {
        (self.center_x, self.center_y)
    }

    /// The state that was reported last.
    pub closed spec fn last(&self) -> JoystickState {
        self.last_state
    }

    /// A joystick that rests at (`center_x`, `center_y`).
    pub fn new(center_x: u16, center_y: u16) -> (stick: Self)
        ensures
            stick.center() == (center_x, center_y),
            stick.last() == JoystickState::Center,
    {
        Self { center_x, center_y, last_state: JoystickState::Center }
    }

    /// Takes a reading. Returns the state of the stick if it differs from the
    /// one reported last.
    pub fn state_from(&mut self, x: u16, y: u16) -> (changed: Option<JoystickState>)
        ensures
            final(self).center() == old(self).center(),
            final(self).last() == pointing(
                old(self).center().0 as int,
                old(self).center().1 as int,
                x as int,
                y as int,
            ),
            changed == if final(self).last() != old(self).last() {
                Some(final(self).last())
            } else {
                None
            },
    {
        let state = self.calculate_state(x, y);
        if state != self.last_state {
            self.last_state = state;
            Some(state)
        } else {
            None
        }
    }

    /// The state of the stick at the reading (`x`, `y`).
    pub fn calculate_state(&self, x: u16, y: u16) -> (state: JoystickState)
        ensures
            state == pointing(self.center().0 as int, self.center().1 as int, x as int, y as int),
    {
        let is_x_positive = x > self.center_x;
        let is_y_positive = y > self.center_y;
        let dx = apart(x, self.center_x);
        let dy = apart(y, self.center_y);
        if self.is_in_deadzone(dx, dy) {
            return JoystickState::Center;
        }
        if dx > dy {
            if is_x_positive {
                JoystickState::Right
            } else {
                JoystickState::Left
            }
        } else if dx < dy {
            if !is_y_positive {
                JoystickState::Down
            } else if is_x_positive {
                JoystickState::TopRight
            } else {
                JoystickState::TopLeft
            }
        } else {
            JoystickState::Center
        }
    }

    /// Whether a stick that is `dx` and `dy` away from its centre is at rest:
    /// within the dead zone by the Euclidean distance.
    pub fn is_in_deadzone(&self, dx: u16, dy: u16) -> (resting: bool)
        ensures
            resting == at_rest(dx as int, dy as int),
    {
        let dx: u64 = dx as u64;
        let dy: u64 = dy as u64;
        let limit: u64 = JOYSTICK_DEADZONE as u64;
        assert(dx * dx <= 0xffff * 0xffff) by (nonlinear_arith)
            requires
                dx <= 0xffff,
        ;
        assert(dy * dy <= 0xffff * 0xffff) by (nonlinear_arith)
            requires
                dy <= 0xffff,
        ;
        dx * dx + dy * dy <= limit * limit
    }
}

/// Whether a button press counts, `elapsed_millis` after the last one that
/// did: a press within the delay is taken for a bounce of the contact. Where
/// the time since the last press is not known the press counts.
pub fn accepts_press(elapsed_millis: Option<u64>) -> (accepted: bool)
    ensures
        accepted == !(elapsed_millis matches Some(millis) && millis <= DELAY_BETWEEN_INTERRUPTS),
{
    match elapsed_millis {
        Some(millis) => millis > DELAY_BETWEEN_INTERRUPTS,
        None => true,
    }
}

} // verus!
