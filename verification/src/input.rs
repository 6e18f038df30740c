use crate::bindings::{AxisState, HatState, JoystickEvent};
use crate::state::{State, StateView};
use vstd::prelude::*;

verus! {

/// How far an axis must be pushed, either way, to count.
pub const AXIS_THRESHOLD: i16 = 0x4fff;

/// Milliseconds during which a controller split stays locked after a button or hat event.
pub const JOYSTICK_LOCK_TIME: u32 = 200;

/// Milliseconds during which a controller split stays locked after an axis event.
pub const JOYSTICK_LOCK_TIME_AXIS: u32 = 400;

/// Where a hat switch stands, as the platform reports it.
#[derive(Clone, Copy, Debug, PartialEq, Eq, Structural)]
pub enum HatPosition {
    Centered,
    Up,
    Right,
    Down,
    Left,
    RightUp,
    RightDown,
    LeftUp,
    LeftDown,
}

/// What the platform reports, in plain values.
#[derive(Clone, Copy, Debug, PartialEq, Eq, Structural)]
pub enum InputEvent {
    /// The window was closed, or the quit key was released.
    Quit,
    JoyDeviceAdded { which: u32, timestamp: u32 },
    JoyDeviceRemoved { which: i32, timestamp: u32 },
    JoyButtonUp { which: i32, button_idx: u8, timestamp: u32 },
    JoyHatMotion { which: i32, hat_idx: u8, position: HatPosition, timestamp: u32 },
    JoyAxisMotion { which: i32, axis_idx: u8, value: i16, timestamp: u32 },
    /// Anything else; nothing reacts to it.
    Other,
}

/// A controller event that can be bound or can steer a menu.
#[derive(Clone, Copy, Debug, PartialEq, Eq, Structural)]
pub struct Stroke {
    /// Instance handle of the controller.
    pub which: i32,
    pub timestamp: u32,
    pub event: JoystickEvent,
}

/// The direction of a hat position, if it is one of the four cardinal ones.
pub open spec fn cardinal(position: HatPosition) -> Option<HatState> {
    match position {
        HatPosition::Up => Some(HatState::Up),
        HatPosition::Down => Some(HatState::Down),
        HatPosition::Left => Some(HatState::Left),
        HatPosition::Right => Some(HatState::Right),
        _ => None,
    }
}

/// The side to which an axis is pushed, if it is pushed far enough.
pub open spec fn tilt(value: i16) -> Option<AxisState> {
    if value >= AXIS_THRESHOLD {
        Some(AxisState::Positive)
    } else if value <= -AXIS_THRESHOLD {
        Some(AxisState::Negative)
    } else {
        None
    }
}

/// The stroke that an event stands for: a released button, a hat in a
/// cardinal position, or an axis pushed over the threshold. Every other
/// event stands for none.
pub open spec fn stroke_of(event: InputEvent) -> Option<Stroke> {
    match event {
        InputEvent::JoyButtonUp { which, button_idx, timestamp } => Some(
            Stroke { which, timestamp, event: JoystickEvent::Button(button_idx) },
        ),
        InputEvent::JoyHatMotion { which, hat_idx, position, timestamp } => match cardinal(position) {
            Some(direction) => Some(
                Stroke { which, timestamp, event: JoystickEvent::Hat(hat_idx, direction) },
            ),
            None => None,
        },
        InputEvent::JoyAxisMotion { which, axis_idx, value, timestamp } => match tilt(value) {
            Some(side) => Some(Stroke { which, timestamp, event: JoystickEvent::Axis(axis_idx, side) }),
            None => None,
        },
        _ => None,
    }
}

/// The menu direction that a bound event stands for: that of a hat, or that
/// of an axis, where even axes run left to right and odd axes run up to down.
pub open spec fn direction_of(event: JoystickEvent) -> Option<HatState> {
    match event {
        JoystickEvent::Hat(_, direction) => Some(direction),
        JoystickEvent::Axis(axis_idx, side) => Some(
            if axis_idx % 2 == 0 {
                if side == AxisState::Positive {
                    HatState::Right
                } else {
                    HatState::Left
                }
            } else {
                if side == AxisState::Positive {
                    HatState::Down
                } else {
                    HatState::Up
                }
            },
        ),
        _ => None,
    }
}

/// The split that an event belongs to on a controller whose splits own
/// `width` buttons each: hats map one to one, axes in pairs, buttons in
/// slices of `width`. A button has no split where `width` is zero.
pub open spec fn split_of(event: JoystickEvent, width: u32) -> Option<u32> {
    match event {
        JoystickEvent::Hat(hat_idx, _) => Some(hat_idx as u32),
        JoystickEvent::Axis(axis_idx, _) => Some((axis_idx / 2) as u32),
        JoystickEvent::Button(button_idx) => if width == 0 {
            None
        } else {
            Some((button_idx as u32 / width) as u32)
        },
        JoystickEvent::Unassigned => None,
    }
}

/// The event is the release of the first button of a split: the button that confirms and joins.
pub open spec fn is_confirm(event: JoystickEvent, width: u32) -> bool {
    event matches JoystickEvent::Button(button_idx) && width > 0 && button_idx as u32 % width == 0
}

/// The lock window of an event: the long one for an axis, the short one otherwise.
pub open spec fn window_of(event: JoystickEvent) -> u32 {
    if event is Axis {
        JOYSTICK_LOCK_TIME_AXIS
    } else {
        JOYSTICK_LOCK_TIME
    }
}

/// When the controller split was last accepted; zero where it never was.
pub open spec fn last_accepted(s: StateView, which: i32, split: u32) -> u32 {
    if s.last_joystick_action.contains_key((which, split)) {
        s.last_joystick_action[(which, split)]
    } else {
        0
    }
}

/// An event at `timestamp` is accepted: the lock window since the last
/// accepted event of the controller split has passed.
pub open spec fn lock_open(s: StateView, which: i32, split: u32, timestamp: u32, window: u32) -> bool {
    timestamp >= last_accepted(s, which, split) + window
}

/// Buttons that each split of controller `which` owns; zero where the
/// controller is not attached or cannot be shared as configured.
pub open spec fn width_of(s: StateView, which: i32) -> u32 {
    if s.joysticks.contains_key(which) {
        s.joysticks[which].spec_split_width() as u32
    } else {
        0
    }
}

pub fn hat_direction(position: HatPosition) -> (r: Option<HatState>)
    ensures
        r == cardinal(position),
{
    match position {
        HatPosition::Up => Some(HatState::Up),
        HatPosition::Down => Some(HatState::Down),
        HatPosition::Left => Some(HatState::Left),
        HatPosition::Right => Some(HatState::Right),
        _ => None,
    }
}

pub fn axis_side(value: i16) -> (r: Option<AxisState>)
    ensures
        r == tilt(value),
{
    if value >= AXIS_THRESHOLD {
        Some(AxisState::Positive)
    } else if value <= -AXIS_THRESHOLD {
        Some(AxisState::Negative)
    } else {
        None
    }
}

pub fn stroke(event: &InputEvent) -> (r: Option<Stroke>)
    ensures
        r == stroke_of(*event),
{
    match event {
        InputEvent::JoyButtonUp { which, button_idx, timestamp } => Some(
            Stroke {
                which: *which,
                timestamp: *timestamp,
                event: JoystickEvent::Button(*button_idx),
            },
        ),
        InputEvent::JoyHatMotion { which, hat_idx, position, timestamp } => match hat_direction(
            *position,
        ) {
            Some(direction) => Some(
                Stroke {
                    which: *which,
                    timestamp: *timestamp,
                    event: JoystickEvent::Hat(*hat_idx, direction),
                },
            ),
            None => None,
        },
        InputEvent::JoyAxisMotion { which, axis_idx, value, timestamp } => match axis_side(*value) {
            Some(side) => Some(
                Stroke {
                    which: *which,
                    timestamp: *timestamp,
                    event: JoystickEvent::Axis(*axis_idx, side),
                },
            ),
            None => None,
        },
        _ => None,
    }
}

pub fn direction(event: JoystickEvent) -> (r: Option<HatState>)
    ensures
        r == direction_of(event),
{
    match event {
        JoystickEvent::Hat(_, direction) => Some(direction),
        JoystickEvent::Axis(axis_idx, side) => {
            let positive = match side {
                AxisState::Positive => true,
                AxisState::Negative => false,
            };
            if axis_idx % 2 == 0 {
                if positive {
                    Some(HatState::Right)
                } else {
                    Some(HatState::Left)
                }
            } else {
                if positive {
                    Some(HatState::Down)
                } else {
                    Some(HatState::Up)
                }
            }
        },
        _ => None,
    }
}

pub fn split_index(event: JoystickEvent, width: u32) -> (r: Option<u32>)
    ensures
        r == split_of(event, width),
{
    match event {
        JoystickEvent::Hat(hat_idx, _) => Some(hat_idx as u32),
        JoystickEvent::Axis(axis_idx, _) => Some((axis_idx / 2) as u32),
        JoystickEvent::Button(button_idx) => {
            if width == 0 {
                None
            } else {
                Some(button_idx as u32 / width)
            }
        },
        JoystickEvent::Unassigned => None,
    }
}

pub fn confirms(event: JoystickEvent, width: u32) -> (r: bool)
    ensures
        r == is_confirm(event, width),
{
    match event {
        JoystickEvent::Button(button_idx) => width > 0 && button_idx as u32 % width == 0,
        _ => false,
    }
}

pub fn lock_window(event: JoystickEvent) -> (r: u32)
    ensures
        r == window_of(event),
{
    match event {
        JoystickEvent::Axis(_, _) => JOYSTICK_LOCK_TIME_AXIS,
        _ => JOYSTICK_LOCK_TIME,
    }
}

/// Whether the lock of the controller split is open at `timestamp`.
pub fn is_lock_open(state: &State, which: i32, split: u32, timestamp: u32, window: u32) -> (r: bool)
    ensures
        r == lock_open(state@, which, split, timestamp, window),
{
    let last: u32 = match state.last_joystick_action.get(&(which, split)) {
        Some(t) => *t,
        None => 0,
    };
    timestamp as u64 >= last as u64 + window as u64
}

pub fn split_width(state: &State, which: i32) -> (r: u32)
    ensures
        r == width_of(state@, which),
{
    match state.joysticks.get(&which) {
        Some(info) => info.split_width(),
        None => 0,
    }
}

/// Of two events on one controller split that are less than a lock window
/// apart, at most one is accepted; of two that are a full window apart, the
/// second is accepted whenever the first is. `s` is the state before the
/// first event, which moves the lock to its timestamp when it is accepted.
pub proof fn lemma_lock_window(s: StateView, which: i32, split: u32, t: u32, window: u32)
    requires
        window > 0,
        t + window <= u32::MAX,
    ensures
        ({
            let accepted = lock_open(s, which, split, t, window);
            let after = if accepted {
                crate::reducer::update_joystick_last_action(s, t, which, split)
            } else {
                s
            };
            &&& !(accepted && lock_open(after, which, split, (t + window - 1) as u32, window))
            &&& accepted ==> lock_open(after, which, split, (t + window) as u32, window)
            &&& accepted ==> forall|later: u32|
                t <= later < t + window ==> !#[trigger] lock_open(after, which, split, later, window)
        }),
{
}

/// Accepting an event on one controller split leaves the lock of every other split as it was.
pub proof fn lemma_lock_is_per_split(
    s: StateView,
    which: i32,
    split: u32,
    t: u32,
    other_which: i32,
    other_split: u32,
)
    requires
        (which, split) != (other_which, other_split),
    ensures
        last_accepted(
            crate::reducer::update_joystick_last_action(s, t, which, split),
            other_which,
            other_split,
        ) == last_accepted(s, other_which, other_split),
{
}

} // verus!
