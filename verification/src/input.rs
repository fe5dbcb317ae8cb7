//! Device-independent input: the per-frame actions, the grid step a navigation gives, the
//! analog stick's repeat, and which device is in control.

use vstd::prelude::*;

use crate::lifecycle::Phase;

verus! {

/// The actions of one frame, each "happened this frame".
#[derive(Clone, Copy, PartialEq, Eq, Debug, Structural)]
pub struct InputActions {
    pub up: bool,
    pub down: bool,
    pub left: bool,
    pub right: bool,
    /// Select, swap or activate.
    pub confirm: bool,
    /// Drop a picked piece or go back.
    pub cancel: bool,
    /// Open or close the pause menu.
    pub pause: bool,
}

impl Default for InputActions {
    /// No action.
    fn default() -> (r: InputActions)
        ensures
            r == (InputActions {
                up: false,
                down: false,
                left: false,
                right: false,
                confirm: false,
                cancel: false,
                pause: false,
            }),
    {
        InputActions { up: false, down: false, left: false, right: false, confirm: false, cancel: false, pause: false }
    }
}

/// `1` for a pressed direction, else `0`.
pub open spec fn bit(b: bool) -> int {
    if b { 1 } else { 0 }
}

impl InputActions {
    /// Whether any direction was pressed.
    pub fn any_nav(&self) -> (r: bool)
        ensures
            r == (self.up || self.down || self.left || self.right),
    {
        self.up || self.down || self.left || self.right
    }

    /// The grid step of this frame's navigation (`y` up is +1), or `None` when the directions
    /// cancel out or none was pressed.
    pub fn nav_delta(&self) -> (r: Option<(i32, i32)>)
        ensures
            ({
                let dx = bit(self.right) - bit(self.left);
                let dy = bit(self.up) - bit(self.down);
                r == if dx == 0 && dy == 0 { None } else { Some((dx as i32, dy as i32)) }
            }),
    {
        let dx: i32 = (if self.right { 1i32 } else { 0i32 }) - (if self.left { 1i32 } else { 0i32 });
        let dy: i32 = (if self.up { 1i32 } else { 0i32 }) - (if self.down { 1i32 } else { 0i32 });
        if dx == 0 && dy == 0 {
            None
        } else {
            Some((dx, dy))
        }
    }

    /// "Back" in menus: the cancel or the pause action.
    pub fn menu_back(&self) -> (r: bool)
        ensures
            r == (self.cancel || self.pause),
    {
        self.cancel || self.pause
    }

    /// Adds the stick's discrete direction to this frame's navigation.
    pub fn apply_stick(&mut self, stick: (i32, i32))
        ensures
            *final(self) == (InputActions {
                right: old(self).right || stick.0 > 0,
                left: old(self).left || stick.0 < 0,
                up: old(self).up || stick.1 > 0,
                down: old(self).down || stick.1 < 0,
                ..*old(self)
            }),
    {
        if stick.0 > 0 {
            self.right = true;
        }
        if stick.0 < 0 {
            self.left = true;
        }
        if stick.1 > 0 {
            self.up = true;
        }
        if stick.1 < 0 {
            self.down = true;
        }
    }
}

/// Whether the analog stick fires a navigation step this frame: never at rest; at once on a
/// new direction; while held, each time the repeat delay has run out. The repeat delay restarts
/// whenever it fires.
pub fn stick_fires(stick: (i32, i32), last: (i32, i32), repeat_finished: bool) -> (r: bool)
    ensures
        r == (stick != (0i32, 0i32) && (stick != last || repeat_finished)),
{
    if stick.0 == 0 && stick.1 == 0 {
        false
    } else if stick.0 != last.0 || stick.1 != last.1 {
        true
    } else {
        repeat_finished
    }
}

/// Which kind of input the player last used.
#[derive(Clone, Copy, PartialEq, Eq, Debug, Structural)]
pub enum LastInputDevice {
    Pointer,
    Cursor,
    Touch,
}

/// The device in control after this frame: a keyboard or gamepad action takes it for the
/// cursor; otherwise mouse activity takes it back for the pointer; otherwise it is unchanged.
pub fn device_in_control(actions: &InputActions, mouse_active: bool, current: LastInputDevice) -> (r: LastInputDevice)
    ensures
        r == if actions.up || actions.down || actions.left || actions.right || actions.confirm
            || actions.cancel || actions.pause {
            LastInputDevice::Cursor
        } else if mouse_active {
            LastInputDevice::Pointer
        } else {
            current
        },
{
    let cursor_action = actions.any_nav() || actions.confirm || actions.cancel || actions.pause;
    if cursor_action {
        LastInputDevice::Cursor
    } else if mouse_active {
        LastInputDevice::Pointer
    } else {
        current
    }
}

/// Adds a fresh pointer press (a mouse button or a touch) to this frame's actions: it confirms
/// on the level-complete and game-over screens, and does nothing elsewhere.
pub fn apply_pointer_press(actions: &mut InputActions, phase: Phase, pointer_pressed: bool)
    ensures
        *final(actions) == if pointer_pressed && (phase == Phase::LevelComplete || phase == Phase::GameOver) {
            InputActions { confirm: true, ..*old(actions) }
        } else {
            *old(actions)
        },
{
    if pointer_pressed && (phase == Phase::LevelComplete || phase == Phase::GameOver) {
        actions.confirm = true;
    }
}

} // verus!
