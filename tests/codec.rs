use ciborium::Value;
use runelib::codec::{decode_entities, encode_entities};
use runelib::records::{BlockPos, ScriptableBlockEntity, ScriptableItem};

fn text(s: &str) -> Value {
    Value::Text(s.to_string())
}

fn integer(i: i64) -> Value {
    Value::Integer(i.into())
}

fn sample() -> Vec<ScriptableBlockEntity> {
    vec![
        ScriptableBlockEntity {
            raw_access_index: 0,
            block_pos: BlockPos { x: -5, y: 64, z: 300 },
            dimension: "minecraft:overworld".to_string(),
            name: "Chest".to_string(),
            items: vec![
                ScriptableItem {
                    slot_index: 0,
                    name: "Stone".to_string(),
                    tags: vec!["minecraft:stone".to_string(), "minecraft:base_stone".to_string()],
                    count: 64,
                },
                ScriptableItem {
                    slot_index: 26,
                    name: "Épée dorée ⚔".to_string(),
                    tags: vec![],
                    count: 1,
                },
            ],
        },
        ScriptableBlockEntity {
            raw_access_index: 70000,
            block_pos: BlockPos { x: i32::MIN, y: -1, z: i32::MAX },
            dimension: "the_nether".to_string(),
            name: String::new(),
            items: vec![],
        },
    ]
}

fn item_value(i: &ScriptableItem) -> Value {
    Value::Map(vec![
        (text("slot_index"), integer(i.slot_index as i64)),
        (text("name"), text(&i.name)),
        (
            text("tags"),
            Value::Array(i.tags.iter().map(|t| text(t)).collect()),
        ),
        (text("count"), integer(i.count as i64)),
    ])
}

fn entity_value(e: &ScriptableBlockEntity) -> Value {
    Value::Map(vec![
        (text("raw_access_index"), integer(e.raw_access_index as i64)),
        (
            text("block_pos"),
            Value::Map(vec![
                (text("x"), integer(e.block_pos.x as i64)),
                (text("y"), integer(e.block_pos.y as i64)),
                (text("z"), integer(e.block_pos.z as i64)),
            ]),
        ),
        (text("dimension"), text(&e.dimension)),
        (text("name"), text(&e.name)),
        (text("items"), Value::Array(e.items.iter().map(item_value).collect())),
    ])
}

fn cbor_of(entities: &[ScriptableBlockEntity]) -> Vec<u8> {
    let value = Value::Array(entities.iter().map(entity_value).collect());
    let mut out = Vec::new();
    ciborium::into_writer(&value, &mut out).unwrap();
    out
}

fn same_fields(a: &[ScriptableBlockEntity], b: &[ScriptableBlockEntity]) {
    assert_eq!(a.len(), b.len());
    for (x, y) in a.iter().zip(b) {
        assert_eq!(x.raw_access_index, y.raw_access_index);
        assert_eq!(x.block_pos, y.block_pos);
        assert_eq!(x.dimension, y.dimension);
        assert_eq!(x.name, y.name);
        assert_eq!(x.items.len(), y.items.len());
        for (i, j) in x.items.iter().zip(&y.items) {
            assert_eq!(i.slot_index, j.slot_index);
            assert_eq!(i.name, j.name);
            assert_eq!(i.tags, j.tags);
            assert_eq!(i.count, j.count);
        }
    }
}

#[test]
fn round_trip_keeps_every_field() {
    let entities = sample();
    let bytes = encode_entities(&entities);
    let back = decode_entities(&bytes).expect("decodes");
    same_fields(&entities, &back);
}

#[test]
fn round_trip_of_an_empty_list() {
    let bytes = encode_entities(&vec![]);
    assert_eq!(bytes, vec![0x80]);
    assert_eq!(decode_entities(&bytes).unwrap().len(), 0);
}

#[test]
fn round_trip_keeps_order() {
    let mut entities = sample();
    entities.reverse();
    let back = decode_entities(&encode_entities(&entities)).unwrap();
    same_fields(&entities, &back);
    assert_eq!(back[0].raw_access_index, 70000);
}

#[test]
fn encoding_matches_cbor_written_by_ciborium() {
    let entities = sample();
    assert_eq!(encode_entities(&entities), cbor_of(&entities));
}

#[test]
fn decodes_cbor_written_by_ciborium() {
    let entities = sample();
    let back = decode_entities(&cbor_of(&entities)).unwrap();
    same_fields(&entities, &back);
}

#[test]
fn exact_bytes_of_a_small_position() {
    let entities = vec![ScriptableBlockEntity {
        raw_access_index: 1,
        block_pos: BlockPos { x: 0, y: -1, z: 24 },
        dimension: "d".to_string(),
        name: "n".to_string(),
        items: vec![],
    }];
    let bytes = encode_entities(&entities);
    let mut expected = vec![0x81, 0xa5];
    expected.push(0x70);
    expected.extend_from_slice(b"raw_access_index");
    expected.push(0x01);
    expected.push(0x69);
    expected.extend_from_slice(b"block_pos");
    expected.extend_from_slice(&[0xa3, 0x61, b'x', 0x00, 0x61, b'y', 0x20, 0x61, b'z', 0x18, 24]);
    expected.push(0x69);
    expected.extend_from_slice(b"dimension");
    expected.extend_from_slice(&[0x61, b'd', 0x64]);
    expected.extend_from_slice(b"name");
    expected.extend_from_slice(&[0x61, b'n', 0x65]);
    expected.extend_from_slice(b"items");
    expected.push(0x80);
    assert_eq!(bytes, expected);
}

#[test]
fn trailing_bytes_are_refused() {
    let mut bytes = encode_entities(&sample());
    bytes.push(0);
    assert!(decode_entities(&bytes).is_none());
}

#[test]
fn truncated_input_is_refused() {
    let bytes = encode_entities(&sample());
    for cut in [0, 1, 5, bytes.len() / 2, bytes.len() - 1] {
        assert!(decode_entities(&bytes[..cut]).is_none());
    }
}

#[test]
fn long_form_of_a_small_number_is_refused() {
    let entities = vec![ScriptableBlockEntity {
        raw_access_index: 1,
        block_pos: BlockPos { x: 0, y: 0, z: 0 },
        dimension: String::new(),
        name: String::new(),
        items: vec![],
    }];
    let bytes = encode_entities(&entities);
    let at = 2 + 17;
    assert_eq!(bytes[at], 0x01);
    let mut long = bytes[..at].to_vec();
    long.extend_from_slice(&[0x18, 0x01]);
    long.extend_from_slice(&bytes[at + 1..]);
    assert!(decode_entities(&long).is_none());
}

#[test]
fn misnamed_field_is_refused() {
    let mut bytes = encode_entities(&sample());
    let at = bytes.windows(4).position(|w| w == b"name").unwrap();
    bytes[at] = b'm';
    assert!(decode_entities(&bytes).is_none());
}

#[test]
fn invalid_utf8_is_refused() {
    let entities = vec![ScriptableBlockEntity {
        raw_access_index: 0,
        block_pos: BlockPos { x: 0, y: 0, z: 0 },
        dimension: "ab".to_string(),
        name: String::new(),
        items: vec![],
    }];
    let mut bytes = encode_entities(&entities);
    let at = bytes.windows(2).position(|w| w == b"ab").unwrap();
    bytes[at] = 0xff;
    assert!(decode_entities(&bytes).is_none());
}

#[test]
fn out_of_range_count_is_refused() {
    let item = ScriptableItem {
        slot_index: 0,
        name: String::new(),
        tags: vec![],
        count: 0,
    };
    let mut value = item_value(&item);
    if let Value::Map(fields) = &mut value {
        fields[3].1 = integer(i32::MAX as i64 + 1);
    }
    let entity = Value::Map(vec![
        (text("raw_access_index"), integer(0)),
        (
            text("block_pos"),
            Value::Map(vec![(text("x"), integer(0)), (text("y"), integer(0)), (text("z"), integer(0))]),
        ),
        (text("dimension"), text("")),
        (text("name"), text("")),
        (text("items"), Value::Array(vec![value])),
    ]);
    let mut out = Vec::new();
    ciborium::into_writer(&Value::Array(vec![entity]), &mut out).unwrap();
    assert!(decode_entities(&out).is_none());
}
