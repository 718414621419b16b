//! Raw key state as the host reports it to a render context.
use vstd::prelude::*;

verus! {

/// The last key event: the key, its scan code, and the modifier bits.
#[derive(Debug, Clone, Copy, PartialEq, Eq, Structural, Default)]
pub struct KeyState {
    pub key_code: i32,
    pub scan_mode: i32,
    pub modifiers: i32,
}

} // verus!
