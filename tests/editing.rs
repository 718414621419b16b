use runelib::input::{mouse_button_of, Character, Input, KeyData, KeyState, MouseButton, Position};
use runelib::render_data::{ExampleBlockRenderData, UIScript};
use runelib::text_input::{
    Cursor, Direction, TextInput, TextSelection, CTRL_MODIFIER, CTRL_SHIFT_MODIFIER,
    KEY_BACKSPACE, KEY_LEFT, KEY_RIGHT, SHIFT_MODIFIER,
};

fn typed(s: &str) -> Vec<Character> {
    s.encode_utf16()
        .map(|c| Character { code_point: c, modifiers: 0 })
        .collect()
}

fn key(code: i32, modifiers: i32) -> KeyData {
    KeyData { key_code: code, scan_mode: 0, modifiers }
}

fn field_with(text: &str) -> TextInput {
    let mut field = TextInput::new();
    field.click(true, true);
    field.type_characters(&typed(text));
    field
}

fn text_of(field: &TextInput) -> String {
    field.text.iter().collect()
}

#[test]
fn new_selection_is_empty_at_anchor() {
    let s = TextSelection::new(4);
    assert_eq!(s.anchor, 4);
    assert_eq!(s.range, 4..4);
}

#[test]
fn selecting_left_then_right() {
    let mut s = TextSelection::new(4);
    s.select(Direction::Left, 3);
    assert_eq!(s.range, 3..4);
    s.select(Direction::Right { limit: 9 }, 4);
    assert_eq!(s.range, 4..4);
    s.select(Direction::Right { limit: 9 }, 6);
    assert_eq!(s.range, 4..6);
    s.select(Direction::Left, 5);
    assert_eq!(s.range, 4..5);
    s.select(Direction::Up, 0);
    assert_eq!(s.range, 4..5);
}

#[test]
fn cursor_moves_within_bounds() {
    let mut c = Cursor::new();
    assert_eq!(c.position, 0);
    assert!(c.selection().is_none());
    c.move_cursor(Direction::Left);
    assert_eq!(c.position, 0);
    c.move_cursor(Direction::Right { limit: 1 });
    c.move_cursor(Direction::Right { limit: 1 });
    assert_eq!(c.position, 1);
    c.jump_direction(Direction::Right { limit: 8 });
    assert_eq!(c.position, 8);
    c.select_to(Direction::Left, 7);
    assert_eq!(c.selection().as_ref().unwrap().range, 7..8);
    c.jump_direction(Direction::Left);
    assert_eq!(c.position, 0);
    c.clear_selection();
    assert!(c.selection().is_none());
}

#[test]
fn typing_inserts_in_order_at_the_caret() {
    let mut field = field_with("héllo");
    assert_eq!(text_of(&field), "héllo");
    assert_eq!(field.cursor.position, 5);
    field.handle_key(&key(KEY_LEFT, 0));
    field.handle_key(&key(KEY_LEFT, 0));
    field.type_characters(&typed("XY"));
    assert_eq!(text_of(&field), "hélXYlo");
    assert_eq!(field.cursor.position, 5);
}

#[test]
fn typing_without_focus_does_nothing() {
    let mut field = TextInput::new();
    field.type_characters(&typed("abc"));
    assert!(field.text.is_empty());
    let mut field = field_with("ab");
    field.click(false, true);
    assert!(!field.focused);
    field.type_characters(&typed("c"));
    assert_eq!(text_of(&field), "ab");
}

#[test]
fn lone_surrogates_are_skipped() {
    let mut field = field_with("");
    field.type_characters(&vec![Character { code_point: 0xd800, modifiers: 0 }]);
    assert!(field.text.is_empty());
}

#[test]
fn backspace_deletes_before_the_caret() {
    let mut field = field_with("abc");
    assert!(field.handle_key(&key(KEY_BACKSPACE, 0)));
    assert_eq!(text_of(&field), "ab");
    field.handle_key(&key(KEY_LEFT, CTRL_MODIFIER));
    assert_eq!(field.cursor.position, 0);
    field.handle_key(&key(KEY_BACKSPACE, 0));
    assert_eq!(text_of(&field), "ab");
}

#[test]
fn shift_arrows_select() {
    let mut field = field_with("abcd");
    field.handle_key(&key(KEY_LEFT, SHIFT_MODIFIER));
    field.handle_key(&key(KEY_LEFT, SHIFT_MODIFIER));
    assert_eq!(field.cursor.position, 2);
    assert_eq!(field.cursor.selection.as_ref().unwrap().range, 2..4);
    field.handle_key(&key(KEY_RIGHT, CTRL_SHIFT_MODIFIER));
    assert_eq!(field.cursor.position, 4);
    field.handle_key(&key(KEY_RIGHT, 0));
    assert!(field.cursor.selection.is_none());
    assert_eq!(field.cursor.position, 4);
}

#[test]
fn only_the_first_handled_key_applies() {
    let mut field = field_with("abcd");
    let keys = vec![
        KeyState::Released(key(KEY_LEFT, 0)),
        KeyState::Pressed(key(65, 0)),
        KeyState::Pressed(key(KEY_LEFT, 0)),
        KeyState::Pressed(key(KEY_LEFT, 0)),
    ];
    assert!(field.handle_keys(&keys));
    assert_eq!(field.cursor.position, 3);
    assert!(!field.handle_key(&key(65, 0)));
}

#[test]
fn mouse_buttons_by_number() {
    assert_eq!(mouse_button_of(0), Some(MouseButton::Left));
    assert_eq!(mouse_button_of(1), Some(MouseButton::Right));
    assert_eq!(mouse_button_of(2), Some(MouseButton::Middle));
    assert_eq!(mouse_button_of(3), None);
}

fn script(name: &str, content: &str) -> UIScript {
    UIScript {
        file_name: name.to_string(),
        full_path: format!("/scripts/{}", name),
        content: content.to_string(),
    }
}

#[test]
fn refresh_takes_the_new_text_of_the_chosen_script() {
    let mut data = ExampleBlockRenderData {
        scripts: vec![script("a.rn", "new a"), script("b.rn", "new b")],
        target_directory: "/scripts".to_string(),
        active_script: Some(script("b.rn", "old b")),
    };
    data.refresh_active_script();
    assert_eq!(data.active_script, Some(script("b.rn", "new b")));
}

#[test]
fn refresh_without_match_keeps_the_choice() {
    let mut data = ExampleBlockRenderData {
        scripts: vec![script("a.rn", "a")],
        target_directory: "/scripts".to_string(),
        active_script: Some(script("gone.rn", "old")),
    };
    data.refresh_active_script();
    assert_eq!(data.active_script, Some(script("gone.rn", "old")));
    let mut empty = ExampleBlockRenderData::default();
    empty.refresh_active_script();
    assert_eq!(empty.active_script, None);
}

#[test]
fn input_collects_a_frame_and_clears_it() {
    let mut input = Input::new();
    input.on_mouse_move(10, 20);
    input.on_mouse_pressed(0);
    input.on_key_pressed(KEY_LEFT, 5, SHIFT_MODIFIER);
    input.on_key_released(KEY_LEFT, 5, 0);
    input.on_character_typed(97, 0);
    assert_eq!(input.mouse_position, Position { x: 10, y: 20 });
    assert!(input.is_mouse_down(MouseButton::Left));
    assert!(!input.is_mouse_down(MouseButton::Right));
    assert_eq!(
        input.key_state,
        vec![
            KeyState::Pressed(key(KEY_LEFT, SHIFT_MODIFIER).with_scan(5)),
            KeyState::Released(key(KEY_LEFT, 0).with_scan(5)),
        ]
    );
    assert_eq!(input.typed_characters, vec![Character { code_point: 97, modifiers: 0 }]);
    input.end_frame();
    assert!(input.key_state.is_empty());
    assert!(input.typed_characters.is_empty());
    assert!(input.is_mouse_down(MouseButton::Left));
    input.on_mouse_released();
    assert_eq!(input.mouse_button_down, None);
    input.on_mouse_pressed(7);
    assert_eq!(input.mouse_button_down, None);
}

#[test]
fn hovering_includes_the_edges() {
    let mut input = Input::new();
    input.on_mouse_move(5, 5);
    assert!(input.is_mouse_hovering(0, 0, 5, 5));
    assert!(input.is_mouse_hovering(5, 5, 9, 9));
    assert!(!input.is_mouse_hovering(6, 0, 9, 9));
    assert!(!input.is_mouse_hovering(0, 0, 9, 4));
}

trait WithScan {
    fn with_scan(self, scan: i32) -> Self;
}

impl WithScan for KeyData {
    fn with_scan(mut self, scan: i32) -> Self {
        self.scan_mode = scan;
        self
    }
}

#[test]
fn select_to_grows_the_existing_selection() {
    let mut c = Cursor::new();
    c.jump_direction(Direction::Right { limit: 5 });
    c.select_to(Direction::Right { limit: 9 }, 7);
    assert_eq!(c.selection().as_ref().unwrap().anchor, 5);
    assert_eq!(c.selection().as_ref().unwrap().range, 5..7);
    c.select_to(Direction::Left, 6);
    assert_eq!(c.selection().as_ref().unwrap().range, 5..6);
    assert_eq!(c.position, 5);
}

#[test]
fn backspace_among_released_keys_applies_once() {
    let mut field = field_with("abc");
    let keys = vec![
        KeyState::Released(key(KEY_BACKSPACE, 0)),
        KeyState::Pressed(key(KEY_BACKSPACE, 0)),
        KeyState::Pressed(key(KEY_BACKSPACE, 0)),
    ];
    assert!(field.handle_keys(&keys));
    assert_eq!(text_of(&field), "ab");
    assert_eq!(field.cursor.position, 2);
}
