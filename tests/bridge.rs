use runelib::bridge::{JNIBlockContext, MoveRequest};
use runelib::records::{BlockPos, Direction, ScriptableBlockEntity, ScriptableItem};

fn entity(index: u32) -> ScriptableBlockEntity {
    ScriptableBlockEntity {
        raw_access_index: index,
        block_pos: BlockPos { x: 1, y: 2, z: 3 },
        dimension: "minecraft:overworld".to_string(),
        name: "Chest".to_string(),
        items: vec![],
    }
}

fn item(slot: u32) -> ScriptableItem {
    ScriptableItem {
        slot_index: slot,
        name: "Stone".to_string(),
        tags: vec!["minecraft:stone".to_string()],
        count: 64,
    }
}

#[test]
fn out_of_range_source_has_no_effect() {
    let bridge = JNIBlockContext::new(9, vec![100, 101]);
    assert_eq!(
        bridge.move_item(&entity(2), &entity(0), &item(0), Direction::Up, Some(1)),
        None
    );
}

#[test]
fn out_of_range_destination_has_no_effect() {
    let bridge = JNIBlockContext::new(9, vec![100, 101]);
    assert_eq!(
        bridge.move_item(&entity(0), &entity(u32::MAX), &item(0), Direction::Up, None),
        None
    );
}

#[test]
fn no_entities_means_no_move() {
    let bridge = JNIBlockContext::new(9, vec![]);
    assert_eq!(
        bridge.move_item(&entity(0), &entity(0), &item(0), Direction::Down, None),
        None
    );
}

#[test]
fn valid_move_forwards_resolved_handles_and_amount() {
    let bridge = JNIBlockContext::new(9, vec![100, 101, 102]);
    let r = bridge.move_item(&entity(2), &entity(0), &item(5), Direction::West, Some(16));
    assert_eq!(
        r,
        Some(MoveRequest {
            block_entity: 9,
            source: 102,
            destination: 100,
            slot_index: 5,
            face: Direction::West,
            amount: Some(16),
        })
    );
}

#[test]
fn missing_amount_is_forwarded_as_absent_not_zero() {
    let bridge = JNIBlockContext::new(9, vec![100, 101]);
    let r = bridge
        .move_item(&entity(1), &entity(0), &item(3), Direction::North, None)
        .unwrap();
    assert_eq!(r.amount, None);
    assert_ne!(r.amount, Some(0));
}

#[test]
fn resolving_an_index() {
    let bridge = JNIBlockContext::new(9, vec![100, 101]);
    assert_eq!(bridge.get_raw_scriptable_entity(0), Some(100));
    assert_eq!(bridge.get_raw_scriptable_entity(1), Some(101));
    assert_eq!(bridge.get_raw_scriptable_entity(2), None);
}

#[test]
fn direction_names() {
    assert_eq!(Direction::Down.to_str(), "DOWN");
    assert_eq!(Direction::Up.to_str(), "UP");
    assert_eq!(Direction::North.to_str(), "NORTH");
    assert_eq!(Direction::South.to_str(), "SOUTH");
    assert_eq!(Direction::West.to_str(), "WEST");
    assert_eq!(Direction::East.to_str(), "EAST");
}

#[test]
fn equality_ignores_hidden_indices() {
    assert_eq!(item(1), item(2));
    assert_eq!(entity(0), entity(7));
    let mut other = item(1);
    other.count = 3;
    assert_ne!(item(1), other);
    let mut moved = entity(0);
    moved.block_pos.y = 70;
    assert_ne!(entity(0), moved);
    let mut filled = entity(0);
    filled.items.push(item(0));
    assert_ne!(entity(0), filled);
}

