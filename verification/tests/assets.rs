use turtle_control::chunks::{BlockData, BlockStateData, Chunk};
use turtle_control::coordinates::Coordinate;
use turtle_control::extractor::{dump_chunk, extraction_destination, is_block_asset_entry, should_read_archive};

#[test]
fn block_asset_entries() {
    assert!(is_block_asset_entry("assets/minecraft/blockstates/stone.json"));
    assert!(is_block_asset_entry("assets/minecraft/textures/block/stone.png"));
    assert!(!is_block_asset_entry("assets/minecraft/models/item/stick.json"));
    assert!(!is_block_asset_entry("data/assets/block/x.png"));
    assert!(!is_block_asset_entry("assets/minecraft/block/x.txt"));
    assert!(!is_block_asset_entry("assets/mod/blocks/x.json"));
    assert!(!is_block_asset_entry("assets/minecraft/block/x.json.bak"));
    assert!(!is_block_asset_entry("assets/minecraft/block/xjson"));
}

#[test]
fn archives_in_processed_mods_are_skipped() {
    assert!(should_read_archive("minecraft_data/mods/create.jar"));
    assert!(!should_read_archive("minecraft_data/processedMods/create.jar"));
    assert!(!should_read_archive("processedMods"));
    assert!(should_read_archive("processedMod"));
}

#[test]
fn extracted_entry_destination() {
    assert_eq!(
        extraction_destination("extracted_minecraft_data", "assets/minecraft/blockstates/stone.json"),
        "extracted_minecraft_data/assets/minecraft/blockstates/stone.json"
    );
    assert_eq!(extraction_destination("", "a"), "/a");
}

#[test]
fn dump_skips_air_and_grass() {
    let mut c = Chunk::new(&Coordinate::new(3, 3, 3));
    let torch = BlockData::from_parts(
        "minecraft:wall_torch".to_string(),
        vec![
            ("facing".to_string(), BlockStateData::String("north".to_string())),
            ("lit".to_string(), BlockStateData::Bool(true)),
            ("level".to_string(), BlockStateData::Integer(7)),
        ],
    )
    .unwrap();
    c.set_block(&Coordinate::new(4, 5, 9), &torch);
    c.set_block(&Coordinate::new(0, 0, 1), &BlockData::from_parts("minecraft:short_grass".to_string(), Vec::new()).unwrap());
    c.set_block(&Coordinate::new(0, 0, 2), &BlockData::from_parts("minecraft:stone".to_string(), Vec::new()).unwrap());
    let d = dump_chunk(&c);
    assert_eq!(d.len(), 2);
    assert_eq!(d[0].position, (0, 0, 2));
    assert_eq!(d[0].name, "minecraft:stone");
    assert!(d[0].properties.is_empty());
    assert_eq!(d[1].position, (4, 5, 9));
    assert_eq!(d[1].name, "minecraft:wall_torch");
    assert_eq!(
        d[1].properties,
        vec![
            ("facing".to_string(), "north".to_string()),
            ("lit".to_string(), "true".to_string()),
            ("level".to_string(), "7".to_string()),
        ]
    );
}
