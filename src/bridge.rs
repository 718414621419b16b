//! The call-scoped bridge through which a script asks the host for work.
//! A script names entities only by access index; the bridge resolves each
//! index against the host array of the current tick and hands the host a
//! request built from what it resolved.
use vstd::prelude::*;

use crate::records::{Direction, ScriptableBlockEntity, ScriptableItem};

verus! {

/// The host handles that one tick may use: the block running the script,
/// and the addressable entities, by access index.
pub struct JNIBlockContext {
    block_entity: u64,
    entities: Vec<u64>,
}

/// One move for the host to perform: `amount` items (the whole matched
/// stack when `None`) of slot `slot_index`, from `source` to `destination`,
/// through `face`, on behalf of `block_entity`.
#[derive(Debug, Clone, Copy, PartialEq, Eq, Structural)]
pub struct MoveRequest {
    pub block_entity: u64,
    pub source: u64,
    pub destination: u64,
    pub slot_index: u32,
    pub face: Direction,
    pub amount: Option<i32>,
}

impl JNIBlockContext {
    /// The block's handle.
    pub closed spec fn block_entity_handle(&self) -> u64 {
        self.block_entity
    }

    /// The entity handles of this tick, by access index.
    pub closed spec fn handles(&self) -> Seq<u64> {
        self.entities@
    }

    /// A bridge for one tick.
    pub fn new(block_entity: u64, entities: Vec<u64>) -> (r: Self)
        ensures
            r.block_entity_handle() == block_entity,
            r.handles() == entities@,
    {
        JNIBlockContext { block_entity, entities }
    }

    /// The host handle of the entity at `index` in this tick's array, if
    /// the index lies inside it.
    pub fn get_raw_scriptable_entity(&self, index: u32) -> (r: Option<u64>)
        ensures
            r == if (index as int) < self.handles().len() {
                Some(self.handles()[index as int])
            } else {
                None::<u64>
            },
    {
        if (index as usize) < self.entities.len() {
            Some(self.entities[index as usize])
        } else {
            None
        }
    }

    /// The one host call that moving `item` from `src` to `dst` comes to, or
    /// `None` when either access index lies outside this tick's array. The
    /// amount is passed on as given: `None` asks for the whole stack.
    pub fn move_item(
        &self,
        src: &ScriptableBlockEntity,
        dst: &ScriptableBlockEntity,
        item: &ScriptableItem,
        face: Direction,
        amount: Option<i32>,
    ) -> (r: Option<MoveRequest>)
        ensures
            r == if (src.raw_access_index as int) < self.handles().len() && (dst.raw_access_index as int)
                < self.handles().len() {
                Some(
                    MoveRequest {
                        block_entity: self.block_entity_handle(),
                        source: self.handles()[src.raw_access_index as int],
                        destination: self.handles()[dst.raw_access_index as int],
                        slot_index: item.slot_index,
                        face,
                        amount,
                    },
                )
            } else {
                None::<MoveRequest>
            },
    {
        let source = match self.get_raw_scriptable_entity(src.raw_access_index) {
            Some(h) => h,
            None => {
                return None;
            },
        };
        let destination = match self.get_raw_scriptable_entity(dst.raw_access_index) {
            Some(h) => h,
            None => {
                return None;
            },
        };
        Some(
            MoveRequest {
                block_entity: self.block_entity,
                source,
                destination,
                slot_index: item.slot_index,
                face,
                amount,
            },
        )
    }
}

} // verus!
