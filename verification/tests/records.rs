use turtle_control::api_key::{ApiKey, ApiKeyError};
use turtle_control::connections::ConnectionTable;
use turtle_control::turtle_data::{Inventory, Slot, Turtle};
use turtle_control::chunks::Chunk;

const SAMPLE: u128 = 0xa1a2a3a4b1b2c1c2d1d2d3d4d5d6d7d8;

#[test]
fn api_key_text_form() {
    let k = ApiKey { uuid: SAMPLE };
    assert_eq!(k.file_text(), "a1a2a3a4-b1b2-c1c2-d1d2-d3d4d5d6d7d8");
}

#[test]
fn api_key_reads_back() {
    let k = ApiKey { uuid: SAMPLE };
    assert_eq!(ApiKey::from_text(&k.file_text()), Some(k));
    let g = ApiKey::generate();
    assert_eq!(ApiKey::from_text(&g.file_text()), Some(g));
    assert_eq!(ApiKey::from_text("not a key"), None);
}

#[test]
fn generated_keys_are_version_four() {
    let g = ApiKey::generate();
    assert_eq!(g.uuid & 0x0000_0000_0000_F000_C000_0000_0000_0000, 0x0000_0000_0000_4000_8000_0000_0000_0000);
}

#[test]
fn api_key_comparison() {
    let k = ApiKey { uuid: SAMPLE };
    assert!(k.equal_to_string("a1a2a3a4-b1b2-c1c2-d1d2-d3d4d5d6d7d8"));
    assert!(k.equal_to_string("A1A2A3A4-B1B2-C1C2-D1D2-D3D4D5D6D7D8"));
    assert!(k.equal_to_string("a1a2a3a4b1b2c1c2d1d2d3d4d5d6d7d8"));
    assert!(!k.equal_to_string("a1a2a3a4-b1b2-c1c2-d1d2-d3d4d5d6d7d9"));
    assert!(!k.equal_to_string("garbage"));
}

#[test]
fn api_key_authorization() {
    let k = ApiKey { uuid: SAMPLE };
    assert_eq!(k.authorize(None), Err(ApiKeyError::Missing));
    assert_eq!(k.authorize(Some("nope")), Err(ApiKeyError::Invalid));
    assert_eq!(k.authorize(Some("a1a2a3a4-b1b2-c1c2-d1d2-d3d4d5d6d7d8")), Ok(()));
}

#[test]
fn connection_table_reads_back_writes() {
    let mut t: ConnectionTable<&str> = ConnectionTable::new();
    assert!(t.get_connected_ids().is_empty());
    t.register(5, "five");
    t.register(9, "nine");
    assert_eq!(t.sender_for(5), Some(&"five"));
    assert_eq!(t.sender_for(7), None);
    t.register(5, "again");
    assert_eq!(t.sender_for(5), Some(&"again"));
    let mut ids = t.get_connected_ids();
    ids.sort();
    assert_eq!(ids, vec![5, 9]);
    t.unregister(5);
    assert_eq!(t.sender_for(5), None);
    assert_eq!(t.get_connected_ids(), vec![9]);
    t.unregister(42);
    assert_eq!(t.get_connected_ids(), vec![9]);
}

fn slot(name: &str, count: i8) -> Option<Slot> {
    Some(Slot { name: name.to_string(), count })
}

#[test]
fn inventory_is_padded_to_size() {
    let inv = Inventory::new(5, Some(vec![slot("minecraft:coal", 3), None]));
    assert_eq!(inv.size, 5);
    assert_eq!(inv.slots, vec![slot("minecraft:coal", 3), None, None, None, None]);
    let full = Inventory::new(2, Some(vec![slot("a", 1), slot("b", 2)]));
    assert_eq!(full.slots, vec![slot("a", 1), slot("b", 2)]);
}

#[test]
fn inventory_without_contents_is_empty() {
    let inv = Inventory::new(16, None);
    assert_eq!(inv.size, 16);
    assert_eq!(inv.slots.len(), 16);
    assert!(inv.slots.iter().all(|s| s.is_none()));
    assert!(Inventory::new_empty(0).slots.is_empty());
}

#[test]
fn inventory_from_contents_is_not_padded() {
    let inv = Inventory::from((4, Some(vec![slot("x", 1)])));
    assert_eq!(inv.size, 4);
    assert_eq!(inv.slots, vec![slot("x", 1)]);
    let empty = Inventory::from((3, None));
    assert_eq!(empty.slots, vec![None, None, None]);
}

#[test]
fn turtle_record_paths() {
    assert_eq!(Turtle::file_path(7), "turtles/7.json");
    assert_eq!(Turtle::file_path(65535), "turtles/65535.json");
    assert_eq!(Turtle::file_path(0), "turtles/0.json");
}

#[test]
fn turtle_ids_from_file_names() {
    assert_eq!(Turtle::id_from_file_stem("7"), Some(7));
    assert_eq!(Turtle::id_from_file_stem("+7"), Some(7));
    assert_eq!(Turtle::id_from_file_stem("007"), Some(7));
    assert_eq!(Turtle::id_from_file_stem("-7"), None);
    assert_eq!(Turtle::id_from_file_stem("65536"), None);
    assert_eq!(Turtle::id_from_file_stem("99999999999"), None);
    assert_eq!(Turtle::id_from_file_stem(""), None);
    assert_eq!(Turtle::id_from_file_stem("+"), None);
    assert_eq!(Turtle::id_from_file_stem("7a"), None);
}

#[test]
fn turtle_record_names_read_back() {
    for id in [0u16, 1, 42, 65535] {
        let path = Turtle::file_path(id);
        let stem = path.strip_prefix("turtles/").unwrap().strip_suffix(".json").unwrap();
        assert_eq!(Turtle::id_from_file_stem(stem), Some(id));
    }
}

#[test]
fn chunk_file_bytes_are_an_lz4_frame() {
    let data: Vec<u8> = b"chunk data chunk data chunk data".to_vec();
    let file = Chunk::file_bytes(&data);
    assert_eq!(&file[0..4], &[0x04, 0x22, 0x4D, 0x18]);
    assert_ne!(file, data);
    assert_eq!(Chunk::encoded_data(&file), Some(data));
}

#[test]
fn empty_chunk_data_round_trips() {
    let file = Chunk::file_bytes(&[]);
    assert_eq!(Chunk::encoded_data(&file), Some(Vec::new()));
}

#[test]
fn chunk_file_that_is_not_a_frame_has_no_data() {
    assert_eq!(Chunk::encoded_data(b"not a frame at all"), None);
}

#[test]
fn connected_ids_follow_each_turtles_last_call() {
    let mut t: ConnectionTable<u8> = ConnectionTable::new();
    t.register(1, 10);
    t.register(2, 20);
    t.unregister(1);
    t.register(3, 30);
    t.register(1, 11);
    t.unregister(2);
    t.unregister(4);
    let mut ids = t.get_connected_ids();
    ids.sort();
    assert_eq!(ids, vec![1, 3]);
}
