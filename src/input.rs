//! Input events as the host reports them.
use vstd::prelude::*;

verus! {

/// A key event: the key, its scan code, and the modifier bits held.
#[derive(Debug, Clone, Copy, PartialEq, Eq, Structural, Default)]
pub struct KeyData {
    pub key_code: i32,
    pub scan_mode: i32,
    pub modifiers: i32,
}

/// A key going down or coming up.
#[derive(Debug, Clone, Copy, PartialEq, Eq, Structural)]
pub enum KeyState {
    Pressed(KeyData),
    Released(KeyData),
}

/// A point on the screen.
#[derive(Debug, Clone, Copy, PartialEq, Eq, Default)]
pub struct Position<T> {
    pub x: T,
    pub y: T,
}

/// A mouse button.
#[derive(Debug, Clone, Copy, PartialEq, Eq, Structural)]
pub enum MouseButton {
    Left,
    Right,
    Middle,
}

/// A typed character, as a UTF-16 code unit, with the modifiers held.
#[derive(Debug, Clone, Copy, PartialEq, Eq, Structural, Default)]
pub struct Character {
    pub code_point: u16,
    pub modifiers: i32,
}

/// The button that the host's button number stands for.
pub open spec fn mouse_button_of_spec(button: i32) -> Option<MouseButton> {
    if button == 0 {
        Some(MouseButton::Left)
    } else if button == 1 {
        Some(MouseButton::Right)
    } else if button == 2 {
        Some(MouseButton::Middle)
    } else {
        None
    }
}

/// The button that the host's button number stands for.
pub fn mouse_button_of(button: i32) -> (r: Option<MouseButton>)
    ensures
        r == mouse_button_of_spec(button),
{
    match button {
        0 => Some(MouseButton::Left),
        1 => Some(MouseButton::Right),
        2 => Some(MouseButton::Middle),
        _ => None,
    }
}

/// The input gathered for one frame: where the mouse is, which button is
/// down, and the key events and characters since the last frame.
#[derive(Debug, Default)]
pub struct Input {
    pub mouse_position: Position<i32>,
    pub mouse_button_down: Option<MouseButton>,
    pub key_state: Vec<KeyState>,
    pub typed_characters: Vec<Character>,
}

impl Input {
    /// No input yet: the mouse at the origin, nothing pressed or typed.
    pub fn new() -> (r: Self)
        ensures
            r.mouse_position == (Position { x: 0i32, y: 0i32 }),
            r.mouse_button_down is None,
            r.key_state@.len() == 0,
            r.typed_characters@.len() == 0,
    {
        Input {
            mouse_position: Position { x: 0, y: 0 },
            mouse_button_down: None,
            key_state: Vec::new(),
            typed_characters: Vec::new(),
        }
    }

    pub fn reset_typed_characters(&mut self)
        ensures
            final(self).typed_characters@.len() == 0,
            final(self).key_state == old(self).key_state,
            final(self).mouse_position == old(self).mouse_position,
            final(self).mouse_button_down == old(self).mouse_button_down,
    {
        self.typed_characters.clear();
    }

    pub fn reset_key_state(&mut self)
        ensures
            final(self).key_state@.len() == 0,
            final(self).typed_characters == old(self).typed_characters,
            final(self).mouse_position == old(self).mouse_position,
            final(self).mouse_button_down == old(self).mouse_button_down,
    {
        self.key_state.clear();
    }

    pub fn reset_mouse_button(&mut self)
        ensures
            final(self).mouse_button_down is None,
            final(self).key_state == old(self).key_state,
            final(self).typed_characters == old(self).typed_characters,
            final(self).mouse_position == old(self).mouse_position,
    {
        self.mouse_button_down = None;
    }

    /// Whether `button` is the one held down.
    pub fn is_mouse_down(&self, button: MouseButton) -> (r: bool)
        ensures
            r == (self.mouse_button_down == Some(button)),
    {
        match self.mouse_button_down {
            Some(b) => b == button,
            None => false,
        }
    }

    /// Whether the mouse lies inside the rectangle, edges included.
    pub fn is_mouse_hovering(&self, left: i32, top: i32, right: i32, bottom: i32) -> (r: bool)
        ensures
            r == (left <= self.mouse_position.x <= right && top <= self.mouse_position.y <= bottom),
    {
        self.mouse_position.x >= left && self.mouse_position.x <= right && self.mouse_position.y
            >= top && self.mouse_position.y <= bottom
    }

    pub fn on_mouse_move(&mut self, mouse_x: i32, mouse_y: i32)
        ensures
            final(self).mouse_position == (Position { x: mouse_x, y: mouse_y }),
            final(self).mouse_button_down == old(self).mouse_button_down,
            final(self).key_state == old(self).key_state,
            final(self).typed_characters == old(self).typed_characters,
    {
        self.mouse_position = Position { x: mouse_x, y: mouse_y };
    }

    pub fn on_key_pressed(&mut self, key_code: i32, scan_mode: i32, modifiers: i32)
        ensures
            final(self).key_state@ == old(self).key_state@.push(
                KeyState::Pressed(KeyData { key_code, scan_mode, modifiers }),
            ),
            final(self).typed_characters == old(self).typed_characters,
            final(self).mouse_position == old(self).mouse_position,
            final(self).mouse_button_down == old(self).mouse_button_down,
    {
        self.key_state.push(KeyState::Pressed(KeyData { key_code, scan_mode, modifiers }));
    }

    pub fn on_key_released(&mut self, key_code: i32, scan_mode: i32, modifiers: i32)
        ensures
            final(self).key_state@ == old(self).key_state@.push(
                KeyState::Released(KeyData { key_code, scan_mode, modifiers }),
            ),
            final(self).typed_characters == old(self).typed_characters,
            final(self).mouse_position == old(self).mouse_position,
            final(self).mouse_button_down == old(self).mouse_button_down,
    {
        self.key_state.push(KeyState::Released(KeyData { key_code, scan_mode, modifiers }));
    }

    /// The host's button number becomes the button held; a number that
    /// names no button means none is held.
    pub fn on_mouse_pressed(&mut self, button: i32)
        ensures
            final(self).mouse_button_down == mouse_button_of_spec(button),
            final(self).key_state == old(self).key_state,
            final(self).typed_characters == old(self).typed_characters,
            final(self).mouse_position == old(self).mouse_position,
    {
        self.mouse_button_down = mouse_button_of(button);
    }

    pub fn on_mouse_released(&mut self)
        ensures
            final(self).mouse_button_down is None,
            final(self).key_state == old(self).key_state,
            final(self).typed_characters == old(self).typed_characters,
            final(self).mouse_position == old(self).mouse_position,
    {
        self.reset_mouse_button();
    }

    pub fn on_character_typed(&mut self, code_point: u16, modifiers: i32)
        ensures
            final(self).typed_characters@ == old(self).typed_characters@.push(
                Character { code_point, modifiers },
            ),
            final(self).key_state == old(self).key_state,
            final(self).mouse_position == old(self).mouse_position,
            final(self).mouse_button_down == old(self).mouse_button_down,
    {
        self.typed_characters.push(Character { code_point, modifiers });
    }

    /// Drops what was typed and pressed once a frame has used it; the mouse
    /// stays where it is.
    pub fn end_frame(&mut self)
        ensures
            final(self).key_state@.len() == 0,
            final(self).typed_characters@.len() == 0,
            final(self).mouse_position == old(self).mouse_position,
            final(self).mouse_button_down == old(self).mouse_button_down,
    {
        self.reset_typed_characters();
        self.reset_key_state();
    }
}

} // verus!
