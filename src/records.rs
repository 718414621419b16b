//! Value records that a script sees: entity and item snapshots, positions,
//! faces and target selectors.
use vstd::prelude::*;

verus! {

/// A block position in the host world.
#[derive(Debug, Clone, Copy, PartialEq, Eq, Structural)]
pub struct BlockPos {
    pub x: i32,
    pub y: i32,
    pub z: i32,
}

impl View for BlockPos {
    type V = BlockPos;

    open spec fn view(&self) -> BlockPos {
        *self
    }
}

/// The six axis-aligned faces through which items can be moved.
#[derive(Debug, Clone, Copy, PartialEq, Eq, Structural)]
pub enum Direction {
    Down,
    Up,
    North,
    South,
    West,
    East,
}

/// The host's name for each face.
pub open spec fn direction_name(d: Direction) -> Seq<char> {
    match d {
        Direction::Down => seq!['D', 'O', 'W', 'N'],
        Direction::Up => seq!['U', 'P'],
        Direction::North => seq!['N', 'O', 'R', 'T', 'H'],
        Direction::South => seq!['S', 'O', 'U', 'T', 'H'],
        Direction::West => seq!['W', 'E', 'S', 'T'],
        Direction::East => seq!['E', 'A', 'S', 'T'],
    }
}

impl Direction {
    /// The name under which the host knows this face.
    pub fn to_str(&self) -> (r: &'static str)
        ensures
            r@ == direction_name(*self),
    {
        proof {
            reveal_strlit("DOWN");
            reveal_strlit("UP");
            reveal_strlit("NORTH");
            reveal_strlit("SOUTH");
            reveal_strlit("WEST");
            reveal_strlit("EAST");
        }
        match self {
            Direction::Down => "DOWN",
            Direction::Up => "UP",
            Direction::North => "NORTH",
            Direction::South => "SOUTH",
            Direction::West => "WEST",
            Direction::East => "EAST",
        }
    }
}


/// What a script can select when it asks for entities.
#[derive(Debug, Clone, Copy, PartialEq, Eq, Structural)]
pub enum BlockEntityTarget {
    Single,
    Multi,
    All,
}

/// An error value that a script can raise and display.
#[derive(Debug, Clone)]
pub struct ScriptError {
    pub message: String,
}

impl ScriptError {
    /// The text shown when the error is displayed.
    pub fn display(&self) -> (r: String)
        ensures
            r@ == self.message@,
    {
        self.message.clone()
    }
}

/// The mathematical content of an item snapshot.
pub struct ItemView {
    pub slot_index: u32,
    pub name: Seq<char>,
    pub tags: Seq<Seq<char>>,
    pub count: i32,
}

/// The mathematical content of an entity snapshot.
pub struct EntityView {
    pub raw_access_index: u32,
    pub block_pos: BlockPos,
    pub dimension: Seq<char>,
    pub name: Seq<char>,
    pub items: Seq<ItemView>,
}

/// A copy of one item stack of a host entity. The slot index tells the host
/// which stack is meant; a script never sees it.
#[derive(Debug, Clone)]
pub struct ScriptableItem {
    pub slot_index: u32,
    pub name: String,
    pub tags: Vec<String>,
    pub count: i32,
}

/// A copy of one host entity, valid for one tick. The access index is its
/// place in the host array of that tick; a script never sees it.
#[derive(Debug, Clone)]
pub struct ScriptableBlockEntity {
    pub raw_access_index: u32,
    pub block_pos: BlockPos,
    pub dimension: String,
    pub name: String,
    pub items: Vec<ScriptableItem>,
}

/// The views of a list of strings.
pub open spec fn strings_view(v: Seq<String>) -> Seq<Seq<char>> {
    v.map_values(|s: String| s@)
}

impl View for ScriptableItem {
    type V = ItemView;

    open spec fn view(&self) -> ItemView {
        ItemView {
            slot_index: self.slot_index,
            name: self.name@,
            tags: strings_view(self.tags@),
            count: self.count,
        }
    }
}

/// The views of a list of items.
pub open spec fn items_view(v: Seq<ScriptableItem>) -> Seq<ItemView> {
    v.map_values(|i: ScriptableItem| i@)
}

impl View for ScriptableBlockEntity {
    type V = EntityView;

    open spec fn view(&self) -> EntityView {
        EntityView {
            raw_access_index: self.raw_access_index,
            block_pos: self.block_pos,
            dimension: self.dimension@,
            name: self.name@,
            items: items_view(self.items@),
        }
    }
}

/// The views of a list of entities.
pub open spec fn entities_view(v: Seq<ScriptableBlockEntity>) -> Seq<EntityView> {
    v.map_values(|e: ScriptableBlockEntity| e@)
}

/// Two items look the same to a script: every visible field agrees.
pub open spec fn item_visibly_eq(a: ItemView, b: ItemView) -> bool {
    a.name == b.name && a.tags == b.tags && a.count == b.count
}

/// Two entities look the same to a script: every visible field agrees, and
/// their items agree one by one.
pub open spec fn entity_visibly_eq(a: EntityView, b: EntityView) -> bool {
    &&& a.block_pos == b.block_pos
    &&& a.dimension == b.dimension
    &&& a.name == b.name
    &&& a.items.len() == b.items.len()
    &&& forall|i: int| 0 <= i < a.items.len() ==> item_visibly_eq(#[trigger] a.items[i], b.items[i])
}

fn strings_eq(a: &Vec<String>, b: &Vec<String>) -> (r: bool)
    ensures
        r == (strings_view(a@) == strings_view(b@)),
{
    if a.len() != b.len() {
        assert(strings_view(a@).len() != strings_view(b@).len());
        return false;
    }
    let mut i: usize = 0;
    while i < a.len()
        invariant
            a.len() == b.len(),
            i <= a.len(),
            forall|j: int| 0 <= j < i ==> a@[j]@ == b@[j]@,
        decreases a.len() - i,
    {
        if a[i] != b[i] {
            assert(strings_view(a@)[i as int] != strings_view(b@)[i as int]);
            return false;
        }
        i = i + 1;
    }
    assert(strings_view(a@) =~= strings_view(b@));
    true
}

impl PartialEq for ScriptableItem {
    fn eq(&self, other: &ScriptableItem) -> (r: bool) {
        self.count == other.count && self.name == other.name && strings_eq(&self.tags, &other.tags)
    }
}

impl vstd::std_specs::cmp::PartialEqSpecImpl for ScriptableItem {
    open spec fn obeys_eq_spec() -> bool {
        true
    }

    open spec fn eq_spec(&self, other: &ScriptableItem) -> bool {
        item_visibly_eq(self@, other@)
    }
}

impl PartialEq for ScriptableBlockEntity {
    fn eq(&self, other: &ScriptableBlockEntity) -> (r: bool) {
        if !(self.block_pos == other.block_pos && self.dimension == other.dimension
            && self.name == other.name) {
            return false;
        }
        if self.items.len() != other.items.len() {
            return false;
        }
        let mut i: usize = 0;
        while i < self.items.len()
            invariant
                self.items.len() == other.items.len(),
                i <= self.items.len(),
                forall|j: int|
                    0 <= j < i ==> item_visibly_eq(
                        #[trigger] self.items@[j]@,
                        other.items@[j]@,
                    ),
            decreases self.items.len() - i,
        {
            if !(self.items[i] == other.items[i]) {
                assert(!item_visibly_eq(self@.items[i as int], other@.items[i as int]));
                return false;
            }
            i = i + 1;
        }
        assert forall|j: int| 0 <= j < self@.items.len() implies item_visibly_eq(
            #[trigger] self@.items[j],
            other@.items[j],
        ) by {
            assert(self@.items[j] == self.items@[j]@);
        }
        true
    }
}

impl vstd::std_specs::cmp::PartialEqSpecImpl for ScriptableBlockEntity {
    open spec fn obeys_eq_spec() -> bool {
        true
    }

    open spec fn eq_spec(&self, other: &ScriptableBlockEntity) -> bool {
        entity_visibly_eq(self@, other@)
    }
}

} // verus!
