use turtle_control::coordinates::Coordinate;
use turtle_control::chunks::{BlockData, BlockStateData, Chunk, ChunkFileEntry, WhitelistMap, parse_chunk_file_stem};

fn block(name: &str) -> BlockData {
    BlockData::from_parts(name.to_string(), Vec::new()).unwrap()
}

#[test]
fn local_coords_wrap_into_chunk() {
    let c = Coordinate::new(-1, 17, -16).world_to_local_coords();
    assert_eq!(c, Coordinate::new(15, 1, 0));
}

#[test]
fn chunk_coords_round_down() {
    let c = Coordinate::new(-1, 17, -16).world_to_chunk_coords();
    assert_eq!(c, Coordinate::new(-1, 1, -1));
    let m = Coordinate::new(i32::MIN, i32::MAX, 0).world_to_chunk_coords();
    assert_eq!(m, Coordinate::new(-134217728, 134217727, 0));
}

#[test]
fn world_is_chunk_corner_plus_local() {
    for &(x, y, z) in &[(0, 0, 0), (-1, -17, 33), (i32::MIN, i32::MAX, -160), (15, 16, -15)] {
        let w = Coordinate::new(x, y, z);
        let c = w.world_to_chunk_coords();
        let l = w.world_to_local_coords();
        assert_eq!(c.x as i64 * 16 + l.x as i64, x as i64);
        assert_eq!(c.y as i64 * 16 + l.y as i64, y as i64);
        assert_eq!(c.z as i64 * 16 + l.z as i64, z as i64);
        assert!((0..16).contains(&l.x) && (0..16).contains(&l.y) && (0..16).contains(&l.z));
    }
}

#[test]
fn new_chunk_is_sixteen_cubed_air() {
    let c = Chunk::new(&Coordinate::new(2, -3, 4));
    assert_eq!(c.coordinates, Coordinate::new(2, -3, 4));
    assert_eq!(c.block_data.len(), 16);
    for plane in &c.block_data {
        assert_eq!(plane.len(), 16);
        for row in plane {
            assert_eq!(row.len(), 16);
            for b in row {
                assert_eq!(b.name(), "minecraft:air");
                assert!(b.states().is_empty());
            }
        }
    }
}

#[test]
fn set_block_changes_one_block() {
    let mut c = Chunk::new(&Coordinate::new(0, 0, 0));
    let stone =
        BlockData::from_parts("minecraft:stone".to_string(), vec![("lit".to_string(), BlockStateData::Bool(true))])
            .unwrap();
    c.set_block(&Coordinate::new(3, 4, 5), &stone);
    assert_eq!(c.block_data[3][4][5].name(), "minecraft:stone");
    assert_eq!(c.block_data[3][4][5].states().len(), 1);
    assert_eq!(c.block_data[3][4][6].name(), "minecraft:air");
    assert_eq!(c.block_data[4][4][5].name(), "minecraft:air");
}

#[test]
fn chunk_names() {
    assert_eq!(Chunk::get_name(&Coordinate::new(-3, 4, 12)), "-3_4_12");
    assert_eq!(Chunk::get_name(&Coordinate::new(0, 0, 0)), "0_0_0");
    assert_eq!(
        Chunk::get_name(&Coordinate::new(i32::MIN, i32::MAX, 100)),
        "-2147483648_2147483647_100"
    );
}

#[test]
fn chunk_names_read_back() {
    for &(x, y, z) in &[(0, 0, 0), (-3, 4, 12), (i32::MIN, i32::MAX, -1), (10, -10, 7)] {
        let c = Coordinate::new(x, y, z);
        let name = Chunk::get_name(&c);
        assert_eq!(parse_chunk_file_stem(&name), ChunkFileEntry::Chunk(c));
    }
}

#[test]
fn chunk_file_stems() {
    assert_eq!(parse_chunk_file_stem("whitelist"), ChunkFileEntry::Whitelist);
    assert_eq!(parse_chunk_file_stem("1_2_3"), ChunkFileEntry::Chunk(Coordinate::new(1, 2, 3)));
    assert_eq!(parse_chunk_file_stem("+1_-2_3_4"), ChunkFileEntry::Chunk(Coordinate::new(1, -2, 3)));
    assert_eq!(parse_chunk_file_stem("007_0_-0"), ChunkFileEntry::Chunk(Coordinate::new(7, 0, 0)));
    assert_eq!(parse_chunk_file_stem("1_2"), ChunkFileEntry::Malformed);
    assert_eq!(parse_chunk_file_stem("1_a_3"), ChunkFileEntry::Malformed);
    assert_eq!(parse_chunk_file_stem("1_2_3_x"), ChunkFileEntry::Malformed);
    assert_eq!(parse_chunk_file_stem(""), ChunkFileEntry::Malformed);
    assert_eq!(parse_chunk_file_stem("1__3"), ChunkFileEntry::Malformed);
    assert_eq!(parse_chunk_file_stem("-_1_2"), ChunkFileEntry::Malformed);
    assert_eq!(parse_chunk_file_stem("2147483648_0_0"), ChunkFileEntry::Malformed);
    assert_eq!(parse_chunk_file_stem("-2147483648_0_0"), ChunkFileEntry::Chunk(Coordinate::new(i32::MIN, 0, 0)));
    assert_eq!(parse_chunk_file_stem("Whitelist"), ChunkFileEntry::Malformed);
}

#[test]
fn load_or_new_prefers_stored_chunk() {
    let mut stored = Chunk::new(&Coordinate::new(1, 1, 1));
    stored.set_block(&Coordinate::new(0, 0, 0), &block("minecraft:dirt"));
    let c = Chunk::load_or_new(Some(stored), &Coordinate::new(1, 1, 1));
    assert_eq!(c.block_data[0][0][0].name(), "minecraft:dirt");
    let fresh = Chunk::load_or_new(None, &Coordinate::new(5, 6, 7));
    assert_eq!(fresh.coordinates, Coordinate::new(5, 6, 7));
    assert_eq!(fresh.block_data[0][0][0].name(), "minecraft:air");
}

#[test]
fn block_state_texts() {
    assert_eq!(BlockStateData::Bool(true).to_string(), "true");
    assert_eq!(BlockStateData::Bool(false).to_string(), "false");
    assert_eq!(BlockStateData::Integer(-15).to_string(), "-15");
    assert_eq!(BlockStateData::Integer(0).to_string(), "0");
    assert_eq!(BlockStateData::String("north".to_string()).to_string(), "north");
}

#[test]
fn new_whitelist_allows_air_only() {
    let w = WhitelistMap::new("world_data/whitelist");
    assert_eq!(w.path(), "world_data/whitelist");
    assert!(w.contains(&"minecraft:air".to_string()));
    assert!(!w.contains(&"minecraft:stone".to_string()));
    assert_eq!(w.names_list().len(), 1);
}

#[test]
fn whitelist_load_or_new_keeps_loaded_names() {
    let loaded = WhitelistMap::from_names(vec!["minecraft:water".to_string()], "").unwrap();
    let w = WhitelistMap::load_or_new("world_data/whitelist", Some(loaded));
    assert_eq!(w.path(), "world_data/whitelist");
    assert!(w.contains(&"minecraft:water".to_string()));
    assert!(!w.contains(&"minecraft:air".to_string()));
    let n = WhitelistMap::load_or_new("x", None);
    assert_eq!(n.path(), "x");
    assert!(n.contains(&"minecraft:air".to_string()));
}

#[test]
fn whitelist_names_are_distinct() {
    let names = vec!["minecraft:air".to_string(), "minecraft:water".to_string(), "minecraft:air".to_string()];
    assert!(WhitelistMap::from_names(names, "w").is_none());
    let w = WhitelistMap::from_names(vec!["a".to_string(), "b".to_string()], "w").unwrap();
    assert_eq!(w.names_list(), &vec!["a".to_string(), "b".to_string()]);
    assert_eq!(w.path(), "w");
}

#[test]
fn block_state_names_are_distinct() {
    let states = vec![
        ("lit".to_string(), BlockStateData::Bool(true)),
        ("lit".to_string(), BlockStateData::Bool(false)),
    ];
    assert!(BlockData::from_parts("minecraft:furnace".to_string(), states).is_none());
    let ok = BlockData::from_parts(
        "minecraft:furnace".to_string(),
        vec![("lit".to_string(), BlockStateData::Bool(true)), ("facing".to_string(), BlockStateData::String("n".to_string()))],
    )
    .unwrap();
    assert_eq!(ok.name(), "minecraft:furnace");
    assert_eq!(ok.states().len(), 2);
}
