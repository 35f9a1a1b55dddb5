use chunky::geom::IVec3;
use chunky::palette::{
    allowed_ids, apply_mapping, builtin_blocks, BlockDatabase, MinecraftVersion, PaletteFilter,
    PaletteSettings, F64_MAX_KEY,
};
use chunky::voxel::{Voxel, VoxelGrid};

fn keys_for(db: &BlockDatabase, f: impl Fn(u16) -> f64) -> Vec<u64> {
    db.blocks.iter().map(|b| f(b.id).to_bits()).collect()
}

#[test]
fn database_holds_the_builtin_table() {
    let db = BlockDatabase::new();
    assert_eq!(db.blocks.len(), builtin_blocks().len());
    assert!(db.blocks.len() > 80);
    let d = BlockDatabase::default();
    assert_eq!(d.blocks.len(), db.blocks.len());
}

#[test]
fn lookup_by_id() {
    let db = BlockDatabase::new();
    let stone = db.get_by_id(1).unwrap();
    assert_eq!(stone.name, "minecraft:stone");
    assert_eq!(stone.display, "Stone");
    assert_eq!(db.get_color(1), [125, 125, 125]);
    assert_eq!(db.mc_name(50), "minecraft:white_wool");
    assert!(db.get_by_id(9999).is_none());
    assert_eq!(db.get_color(9999), [128, 128, 128]);
    assert_eq!(db.mc_name(9999), "minecraft:stone");
}

#[test]
fn best_match_takes_the_least_key() {
    let db = BlockDatabase::new();
    // Distance 0 for white wool, larger for everything else.
    let keys = keys_for(&db, |id| if id == 50 { 0.0 } else { 10.0 + id as f64 });
    assert_eq!(db.find_best_match(&keys, None), 50);
}

#[test]
fn best_match_ties_go_to_the_earlier_block() {
    let db = BlockDatabase::new();
    let keys = keys_for(&db, |_| 5.0);
    let first_opaque = db.blocks.iter().find(|b| b.opaque).unwrap().id;
    assert_eq!(db.find_best_match(&keys, None), first_opaque);
}

#[test]
fn best_match_respects_the_allow_list() {
    let db = BlockDatabase::new();
    let keys = keys_for(&db, |id| if id == 50 { 0.0 } else if id == 103 { 1.0 } else { 50.0 });
    let allowed: Vec<u16> = (100..116).collect();
    assert_eq!(db.find_best_match(&keys, Some(&allowed)), 103);
}

#[test]
fn best_match_without_candidates_is_block_one() {
    let db = BlockDatabase::new();
    let keys = keys_for(&db, |_| 1.0);
    let allowed: Vec<u16> = vec![60000];
    assert_eq!(db.find_best_match(&keys, Some(&allowed)), 1);
    let maxed = vec![F64_MAX_KEY; db.blocks.len()];
    assert_eq!(db.find_best_match(&maxed, None), 1);
}

#[test]
fn versions() {
    assert_eq!(MinecraftVersion::Java118.data_version(), 2860);
    assert_eq!(MinecraftVersion::Java120.data_version(), 3700);
    assert_eq!(MinecraftVersion::Java121.data_version(), 3953);
    for v in [MinecraftVersion::Java118, MinecraftVersion::Java120, MinecraftVersion::Java121] {
        assert_eq!(v.min_y(), -64);
        assert_eq!(v.max_y(), 320);
    }
    assert_eq!(MinecraftVersion::Java120.label(), "Java 1.20");
}

#[test]
fn filters_select_id_ranges() {
    let mut s = PaletteSettings::default();
    assert_eq!(s.version, MinecraftVersion::Java121);
    assert!(allowed_ids(&s).is_none());
    s.filter = PaletteFilter::ConcretesOnly;
    assert_eq!(allowed_ids(&s).unwrap(), (100..116).collect::<Vec<u16>>());
    s.filter = PaletteFilter::WoolOnly;
    assert_eq!(allowed_ids(&s).unwrap(), (50..66).collect::<Vec<u16>>());
    s.filter = PaletteFilter::TerraCottaOnly;
    assert_eq!(allowed_ids(&s).unwrap(), (150..166).collect::<Vec<u16>>());
    s.filter = PaletteFilter::Custom;
    assert!(allowed_ids(&s).is_none());
    s.custom_ids = vec![3, 4];
    assert_eq!(allowed_ids(&s).unwrap(), vec![3, 4]);
}

#[test]
fn mapping_sets_block_and_color() {
    let db = BlockDatabase::new();
    let mut g = VoxelGrid::new();
    g.set_voxel(IVec3::new(0, 0, 0), Voxel::new([1, 2, 3]));
    g.set_voxel(IVec3::new(1, 0, 0), Voxel::new([4, 5, 6]));
    apply_mapping(&mut g, &db, &[50, 1]);
    let a = g.get_voxel(IVec3::new(0, 0, 0)).unwrap();
    assert_eq!(a.block_id, 50);
    assert_eq!(a.color, db.get_color(50));
    assert!(a.occupied);
    let b = g.get_voxel(IVec3::new(1, 0, 0)).unwrap();
    assert_eq!(b.block_id, 1);
    assert_eq!(b.color, [125, 125, 125]);
}
