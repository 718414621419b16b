//! Caret and selection handling of a one-line text field. Positions are
//! counted in characters.
use std::ops::Range;

use vstd::prelude::*;

use vstd::utf8::is_scalar;

use crate::input::{Character, KeyData, KeyState};

verus! {

/// Which way a caret moves or a selection grows. `Right` carries the
/// position past which the caret cannot go.
#[derive(Debug, Clone, Copy, PartialEq, Eq, Structural)]
pub enum Direction {
    Left,
    Right { limit: usize },
    Up,
    Down,
}

/// `s` after its edge on the side of `direction` moved to `dest`: going
/// left, the end while it lies past the anchor, else the start; going right,
/// the start while it lies before the anchor, else the end. Up and down move
/// nothing.
pub open spec fn selected(s: TextSelection, direction: Direction, dest: usize) -> TextSelection {
    TextSelection {
        anchor: s.anchor,
        range: match direction {
            Direction::Left => if s.range.end > s.anchor {
                s.range.start..dest
            } else {
                dest..s.range.end
            },
            Direction::Right { .. } => if s.range.start < s.anchor {
                dest..s.range.end
            } else {
                s.range.start..dest
            },
            _ => s.range,
        },
    }
}

/// The selection that a caret grows: its own, or an empty one at the caret.
pub open spec fn selection_base(c: Cursor) -> TextSelection {
    match c.selection {
        Some(t) => t,
        None => TextSelection { anchor: c.position, range: c.position..c.position },
    }
}

/// A selection: the position where it was started, and the range it covers.
#[derive(Debug)]
pub struct TextSelection {
    pub anchor: usize,
    pub range: Range<usize>,
}

impl TextSelection {
    /// An empty selection at `anchor`.
    pub fn new(anchor: usize) -> (r: Self)
        ensures
            r.anchor == anchor,
            r.range.start == anchor,
            r.range.end == anchor,
    {
        TextSelection { anchor, range: anchor..anchor }
    }

    fn set_end(&mut self, end: usize)
        ensures
            *final(self) == (TextSelection { range: (old(self).range.start..end), ..*old(self) }),
    {
        self.range.end = end;
    }

    fn set_start(&mut self, start: usize)
        ensures
            *final(self) == (TextSelection { range: (start..old(self).range.end), ..*old(self) }),
    {
        self.range.start = start;
    }

    /// Moves the edge of the selection that lies on the side of `direction`
    /// to `dest`.
    pub fn select(&mut self, direction: Direction, dest: usize)
        ensures
            *final(self) == selected(*old(self), direction, dest),
    {
        match direction {
            Direction::Left => {
                if self.range.end > self.anchor {
                    self.set_end(dest);
                } else {
                    self.set_start(dest);
                }
            },
            Direction::Right { .. } => {
                if self.range.start < self.anchor {
                    self.set_start(dest);
                } else {
                    self.set_end(dest);
                }
            },
            Direction::Up => {},
            Direction::Down => {},
        }
    }
}

/// A caret, and the selection it may be extending.
#[derive(Debug)]
pub struct Cursor {
    pub selection: Option<TextSelection>,
    pub position: usize,
}

impl Cursor {
    /// A caret at the start, selecting nothing.
    pub fn new() -> (r: Self)
        ensures
            r.selection is None,
            r.position == 0,
    {
        Cursor { selection: None, position: 0 }
    }

    /// The current selection.
    pub fn selection(&self) -> (r: &Option<TextSelection>)
        ensures
            *r == self.selection,
    {
        &self.selection
    }

    /// Grows the selection toward `destination`, starting one at the caret
    /// if there is none.
    pub fn select_to(&mut self, direction: Direction, destination: usize)
        ensures
            final(self).position == old(self).position,
            final(self).selection == Some(selected(selection_base(*old(self)), direction, destination)),
    {
        let mut selection = match self.selection.take() {
            Some(s) => s,
            None => TextSelection::new(self.position),
        };
        selection.select(direction, destination);
        self.selection = Some(selection);
    }

    /// Puts the caret at the start (left) or at the limit (right).
    pub fn jump_direction(&mut self, direction: Direction)
        requires
            direction is Left || direction is Right,
        ensures
            final(self).selection == old(self).selection,
            final(self).position == match direction {
                Direction::Right { limit } => limit,
                _ => 0,
            },
    {
        match direction {
            Direction::Right { limit } => {
                self.position = limit;
            },
            _ => {
                self.position = 0;
            },
        }
    }

    /// Moves the caret one step: left stops at the start, right at the
    /// limit.
    pub fn move_cursor(&mut self, direction: Direction)
        requires
            direction is Left || direction is Right,
        ensures
            final(self).selection == old(self).selection,
            final(self).position == match direction {
                Direction::Right { limit } => if old(self).position < limit {
                    (old(self).position + 1) as usize
                } else {
                    limit
                },
                _ => if old(self).position > 0 {
                    (old(self).position - 1) as usize
                } else {
                    0
                },
            },
    {
        match direction {
            Direction::Right { limit } => {
                self.position = if self.position < limit {
                    self.position + 1
                } else {
                    limit
                };
            },
            _ => {
                self.position = if self.position > 0 {
                    self.position - 1
                } else {
                    0
                };
            },
        }
    }

    /// Drops the selection.
    pub fn clear_selection(&mut self)
        ensures
            final(self).selection is None,
            final(self).position == old(self).position,
    {
        self.selection = None;
    }
}

pub const KEY_BACKSPACE: i32 = 259;

pub const KEY_RIGHT: i32 = 262;

pub const KEY_LEFT: i32 = 263;

pub const SHIFT_MODIFIER: i32 = 1;

pub const CTRL_MODIFIER: i32 = 2;

pub const CTRL_SHIFT_MODIFIER: i32 = 3;

/// Relies on `char::from_u32`: the character with that scalar value, if
/// the value is one.
#[verifier::external_body]
fn char_of(code: u32) -> (r: Option<char>)
    ensures
        r is Some <==> is_scalar(code),
        r matches Some(c) ==> c as u32 == code,
{
    char::from_u32(code)
}

/// A press of a key that the field handles.
pub open spec fn is_edit_press(k: KeyState) -> bool {
    match k {
        KeyState::Pressed(d) => d.key_code == KEY_LEFT || d.key_code == KEY_RIGHT || d.key_code
            == KEY_BACKSPACE,
        KeyState::Released(_) => false,
    }
}

/// The typed code units that are characters by themselves, in order.
pub open spec fn scalar_codes(typed: Seq<Character>) -> Seq<u32>
    decreases typed.len(),
{
    if typed.len() == 0 {
        Seq::empty()
    } else {
        let rest = scalar_codes(typed.drop_last());
        let code = typed.last().code_point as u32;
        if is_scalar(code) {
            rest.push(code)
        } else {
            rest
        }
    }
}

/// `chars` are the characters with the values `codes`.
pub open spec fn chars_with_codes(chars: Seq<char>, codes: Seq<u32>) -> bool {
    chars.len() == codes.len() && forall|i: int| 0 <= i < chars.len() ==> chars[i] as u32 == codes[i]
}

/// What one key press does to a field (see `TextInput::handle_key`).
pub open spec fn key_effect(before: TextInput, key: KeyData, r: bool, after: TextInput) -> bool {
    let limit = before.text@.len() as usize;
    let pos = before.cursor.position;
    &&& after.wf()
    &&& after.focused == before.focused
    &&& r == (key.key_code == KEY_LEFT || key.key_code == KEY_RIGHT || key.key_code == KEY_BACKSPACE)
    &&& key.key_code != KEY_BACKSPACE ==> after.text == before.text
    &&& key.key_code == KEY_LEFT ==> after.cursor.position == if key.modifiers == CTRL_MODIFIER
        || key.modifiers == CTRL_SHIFT_MODIFIER {
        0
    } else if pos > 0 {
        (pos - 1) as usize
    } else {
        0
    }
    &&& key.key_code == KEY_RIGHT ==> after.cursor.position == if key.modifiers == CTRL_MODIFIER
        || key.modifiers == CTRL_SHIFT_MODIFIER {
        limit
    } else if pos < limit {
        (pos + 1) as usize
    } else {
        limit
    }
    &&& (key.key_code == KEY_LEFT || key.key_code == KEY_RIGHT) ==> (key.modifiers
        != SHIFT_MODIFIER && key.modifiers != CTRL_SHIFT_MODIFIER ==> after.cursor.selection is None)
    &&& key.key_code == KEY_LEFT && key.modifiers == SHIFT_MODIFIER ==> after.cursor.selection
        == Some(
        selected(
            selection_base(before.cursor),
            Direction::Left,
            if pos > 0 {
                (pos - 1) as usize
            } else {
                0
            },
        ),
    )
    &&& key.key_code == KEY_LEFT && key.modifiers == CTRL_SHIFT_MODIFIER ==> after.cursor.selection
        == Some(selected(selection_base(before.cursor), Direction::Left, 0))
    &&& key.key_code == KEY_RIGHT && key.modifiers == SHIFT_MODIFIER ==> after.cursor.selection
        == Some(
        selected(
            selection_base(before.cursor),
            Direction::Right { limit },
            if pos < limit {
                (pos + 1) as usize
            } else {
                limit
            },
        ),
    )
    &&& key.key_code == KEY_RIGHT && key.modifiers == CTRL_SHIFT_MODIFIER
        ==> after.cursor.selection == Some(
        selected(selection_base(before.cursor), Direction::Right { limit }, limit),
    )
    &&& key.key_code == KEY_BACKSPACE ==> if pos > 0 {
        &&& after.cursor.position == pos - 1
        &&& after.text@ == before.text@.remove(pos - 1)
    } else {
        after.text == before.text && after.cursor.position == 0
    }
    &&& key.key_code == KEY_BACKSPACE ==> after.cursor.selection == before.cursor.selection
    &&& !r ==> after == before
}

/// The key of a key event.
pub open spec fn event_key(k: KeyState) -> KeyData {
    match k {
        KeyState::Pressed(d) => d,
        KeyState::Released(d) => d,
    }
}

/// The editing state of a one-line text field: its text, whether it has
/// the focus, and its caret.
#[derive(Debug)]
pub struct TextInput {
    pub text: Vec<char>,
    pub focused: bool,
    pub cursor: Cursor,
}

impl TextInput {
    /// The caret lies inside the text.
    pub open spec fn wf(&self) -> bool {
        self.cursor.position <= self.text@.len()
    }

    /// An empty field without focus.
    pub fn new() -> (r: Self)
        ensures
            r.wf(),
            r.text@.len() == 0,
            !r.focused,
            r.cursor.position == 0,
            r.cursor.selection is None,
    {
        TextInput { text: Vec::new(), focused: false, cursor: Cursor::new() }
    }

    /// A press of the left button on the field takes the focus and puts the
    /// caret at the end; one elsewhere gives the focus up.
    pub fn click(&mut self, hovering: bool, left_down: bool)
        requires
            old(self).wf(),
        ensures
            final(self).wf(),
            final(self).text == old(self).text,
            final(self).cursor.selection == old(self).cursor.selection,
            final(self).focused == if left_down {
                hovering
            } else {
                old(self).focused
            },
            final(self).cursor.position == if left_down && hovering {
                old(self).text@.len() as usize
            } else {
                old(self).cursor.position
            },
    {
        if hovering && left_down {
            self.focused = true;
            self.cursor.position = self.text.len();
        } else if left_down {
            self.focused = false;
        }
    }

    /// Inserts the typed characters at the caret, in order, while the field
    /// has the focus. Code units that are not characters by themselves are
    /// skipped.
    pub fn type_characters(&mut self, typed: &Vec<Character>)
        requires
            old(self).wf(),
        ensures
            final(self).wf(),
            final(self).focused == old(self).focused,
            final(self).cursor.selection == old(self).cursor.selection,
            !old(self).focused ==> *final(self) == *old(self),
            old(self).focused ==> exists|inserted: Seq<char>|
                chars_with_codes(inserted, scalar_codes(typed@)) && final(self).text@ == old(
                    self,
                ).text@.take(old(self).cursor.position as int) + inserted + old(self).text@.skip(
                    old(self).cursor.position as int,
                ) && final(self).cursor.position == old(self).cursor.position + inserted.len(),
    {
        if !self.focused {
            return;
        }
        let ghost start = old(self).cursor.position as int;
        let ghost before = old(self).text@.take(start);
        let ghost after = old(self).text@.skip(start);
        let ghost mut inserted: Seq<char> = Seq::empty();
        assert(old(self).text@ =~= before + inserted + after);
        let mut i: usize = 0;
        while i < typed.len()
            invariant
                self.wf(),
                self.focused == old(self).focused,
                self.cursor.selection == old(self).cursor.selection,
                i <= typed@.len(),
                before.len() == start,
                chars_with_codes(inserted, scalar_codes(typed@.take(i as int))),
                self.text@ == before + inserted + after,
                self.cursor.position == start + inserted.len(),
            decreases typed@.len() - i,
        {
            proof {
                assert(typed@.take(i + 1).drop_last() =~= typed@.take(i as int));
            }
            match char_of(typed[i].code_point as u32) {
                Some(c) => {
                    let at = self.cursor.position;
                    let ghost prev = self.text@;
                    let ghost prev_inserted = inserted;
                    self.text.insert(at, c);
                    let n = self.text.len();
                    assert(at < n);
                    self.cursor.position = at + 1;
                    proof {
                        inserted = inserted.push(c);
                        assert(self.text@ == prev.insert(at as int, c));
                        assert(prev =~= before + prev_inserted + after);
                        let whole = before + inserted + after;
                        assert(before.len() == start);
                        assert(at == before.len() + prev_inserted.len());
                        assert forall|k: int| 0 <= k < self.text@.len() implies self.text@[k]
                            == whole[k] by {
                            if k < before.len() {
                                assert(self.text@[k] == prev[k]);
                            } else if k < at {
                                assert(self.text@[k] == prev[k]);
                                assert(prev[k] == prev_inserted[k - before.len()]);
                            } else if k == at {
                            } else {
                                assert(self.text@[k] == prev[k - 1]);
                                assert(prev[k - 1] == after[k - 1 - at]);
                            }
                        }
                        assert(self.text@ =~= before + inserted + after);
                    }
                },
                None => {},
            }
            i = i + 1;
        }
        assert(typed@.take(typed@.len() as int) =~= typed@);
    }

    /// Applies one key press: left and right move the caret (with shift,
    /// growing the selection; with control, to the end), backspace deletes
    /// the character before the caret. Returns whether the key is one of
    /// these.
    pub fn handle_key(&mut self, key: &KeyData) -> (r: bool)
        requires
            old(self).wf(),
        ensures
            key_effect(*old(self), *key, r, *final(self)),
    {
        let limit = self.text.len();
        if key.key_code == KEY_LEFT {
            if key.modifiers == SHIFT_MODIFIER {
                let dest = if self.cursor.position > 0 {
                    self.cursor.position - 1
                } else {
                    0
                };
                self.cursor.select_to(Direction::Left, dest);
                self.cursor.move_cursor(Direction::Left);
            } else if key.modifiers == CTRL_MODIFIER {
                self.cursor.jump_direction(Direction::Left);
                self.cursor.clear_selection();
            } else if key.modifiers == CTRL_SHIFT_MODIFIER {
                self.cursor.select_to(Direction::Left, 0);
                self.cursor.jump_direction(Direction::Left);
            } else {
                self.cursor.move_cursor(Direction::Left);
                self.cursor.clear_selection();
            }
            true
        } else if key.key_code == KEY_RIGHT {
            if key.modifiers == SHIFT_MODIFIER {
                let dest = if self.cursor.position < limit {
                    self.cursor.position + 1
                } else {
                    limit
                };
                self.cursor.select_to(Direction::Right { limit }, dest);
                self.cursor.move_cursor(Direction::Right { limit });
            } else if key.modifiers == CTRL_MODIFIER {
                self.cursor.jump_direction(Direction::Right { limit });
                self.cursor.clear_selection();
            } else if key.modifiers == CTRL_SHIFT_MODIFIER {
                self.cursor.select_to(Direction::Right { limit }, limit);
                self.cursor.jump_direction(Direction::Right { limit });
            } else {
                self.cursor.move_cursor(Direction::Right { limit });
                self.cursor.clear_selection();
            }
            true
        } else if key.key_code == KEY_BACKSPACE {
            if self.cursor.position > 0 {
                let at = self.cursor.position - 1;
                self.cursor.position = at;
                self.text.remove(at);
            }
            true
        } else {
            false
        }
    }

    /// Applies the first key press of the frame that the field handles, and
    /// ignores the rest. Returns whether one was applied.
    pub fn handle_keys(&mut self, keys: &Vec<KeyState>) -> (r: bool)
        requires
            old(self).wf(),
        ensures
            final(self).wf(),
            final(self).focused == old(self).focused,
            r == exists|i: int| 0 <= i < keys@.len() && is_edit_press(#[trigger] keys@[i]),
            r ==> exists|i: int|
                0 <= i < keys@.len() && is_edit_press(#[trigger] keys@[i]) && (forall|j: int|
                    0 <= j < i ==> !is_edit_press(#[trigger] keys@[j])) && key_effect(
                    *old(self),
                    event_key(keys@[i]),
                    true,
                    *final(self),
                ),
            !r ==> *final(self) == *old(self),
    {
        let mut i: usize = 0;
        while i < keys.len()
            invariant
                i <= keys@.len(),
                *self == *old(self),
                self.wf(),
                forall|j: int| 0 <= j < i ==> !is_edit_press(#[trigger] keys@[j]),
            decreases keys@.len() - i,
        {
            match keys[i] {
                KeyState::Pressed(k) => {
                    if k.key_code == KEY_LEFT || k.key_code == KEY_RIGHT || k.key_code
                        == KEY_BACKSPACE {
                        let r = self.handle_key(&k);
                        assert(is_edit_press(keys@[i as int]));
                        return r;
                    }
                },
                KeyState::Released(_) => {},
            }
            i = i + 1;
        }
        false
    }
}

} // verus!
