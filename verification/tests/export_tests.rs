use std::io::Read;

use chunky::export::{export_schem, ExportError, ExportSettings};
use chunky::geom::IVec3;
use chunky::palette::{BlockDatabase, MinecraftVersion};
use chunky::region::{build_chunk_nbt, encode_section, export_region, region_file_bytes, region_layout_fits};
use chunky::voxel::{Voxel, VoxelGrid};

fn block(id: u16) -> Voxel {
    let mut v = Voxel::new([0, 0, 0]);
    v.block_id = id;
    v
}

fn contains(hay: &[u8], needle: &[u8]) -> bool {
    hay.windows(needle.len()).any(|w| w == needle)
}

fn named_int(name: &str, v: i32) -> Vec<u8> {
    let mut out = vec![3, 0, name.len() as u8];
    out.extend_from_slice(name.as_bytes());
    out.extend_from_slice(&v.to_be_bytes());
    out
}

fn gunzip(bytes: &[u8]) -> Vec<u8> {
    let mut out = Vec::new();
    flate2::read::GzDecoder::new(bytes).read_to_end(&mut out).unwrap();
    out
}

fn unzlib(bytes: &[u8]) -> Vec<u8> {
    let mut out = Vec::new();
    flate2::read::ZlibDecoder::new(bytes).read_to_end(&mut out).unwrap();
    out
}

#[test]
fn default_export_settings() {
    let s = ExportSettings::default();
    assert_eq!(s.version, MinecraftVersion::Java121);
    assert_eq!(s.offset, IVec3::new(0, 0, 0));
}

#[test]
fn schematic_of_an_empty_grid_is_refused() {
    let db = BlockDatabase::new();
    let r = export_schem(&VoxelGrid::new(), &db, &ExportSettings::default());
    assert_eq!(r.err(), Some(ExportError::EmptyGrid));
}

#[test]
fn schematic_of_one_block() {
    let db = BlockDatabase::new();
    let mut g = VoxelGrid::new();
    g.set_voxel(IVec3::new(5, 6, 7), block(1));
    let gz = export_schem(&g, &db, &ExportSettings::default()).unwrap();
    // gzip magic number, then a deflate stream.
    assert_eq!(&gz[..3], &[0x1f, 0x8b, 8]);
    let nbt = gunzip(&gz);
    let mut head = vec![10, 0, 9];
    head.extend_from_slice(b"Schematic");
    assert!(nbt.starts_with(&head));
    assert_eq!(*nbt.last().unwrap(), 0);
    assert!(contains(&nbt, &named_int("Version", 3)));
    assert!(contains(&nbt, &named_int("DataVersion", 3953)));
    assert!(contains(&nbt, &named_int("Width", 1)));
    assert!(contains(&nbt, &named_int("Height", 1)));
    assert!(contains(&nbt, &named_int("Length", 1)));
    assert!(contains(&nbt, &named_int("minecraft:air", 0)));
    assert!(contains(&nbt, &named_int("minecraft:stone", 1)));
    // One index, as a one-byte varint.
    let mut data = vec![7, 0, 4];
    data.extend_from_slice(b"Data");
    data.extend_from_slice(&[0, 0, 0, 1, 1]);
    assert!(contains(&nbt, &data));
}

#[test]
fn schematic_indices_follow_first_use() {
    let db = BlockDatabase::new();
    let mut g = VoxelGrid::new();
    // Two cells apart on x: the box is 3 x 1 x 1, the middle cell is air.
    g.set_voxel(IVec3::new(0, 0, 0), block(50));
    g.set_voxel(IVec3::new(2, 0, 0), block(1));
    let nbt = gunzip(&export_schem(&g, &db, &ExportSettings::default()).unwrap());
    assert!(contains(&nbt, &named_int("Width", 3)));
    assert!(contains(&nbt, &named_int("minecraft:white_wool", 1)));
    assert!(contains(&nbt, &named_int("minecraft:stone", 2)));
    // Indices 1, 0, 2, one varint byte each.
    let mut data = vec![7, 0, 4];
    data.extend_from_slice(b"Data");
    data.extend_from_slice(&[0, 0, 0, 3, 1, 0, 2]);
    assert!(contains(&nbt, &data));
}

#[test]
fn schematic_records_the_placement_offset() {
    let db = BlockDatabase::new();
    let mut g = VoxelGrid::new();
    g.set_voxel(IVec3::new(0, 0, 0), block(1));
    let s = ExportSettings { version: MinecraftVersion::Java121, offset: IVec3::new(5, -64, 70000) };
    let nbt = gunzip(&export_schem(&g, &db, &s).unwrap());
    let mut off = vec![11, 0, 6];
    off.extend_from_slice(b"Offset");
    off.extend_from_slice(&3i32.to_be_bytes());
    for v in [5i32, -64, 70000] {
        off.extend_from_slice(&v.to_be_bytes());
    }
    assert!(contains(&nbt, &off));
    let plain = gunzip(&export_schem(&g, &db, &ExportSettings::default()).unwrap());
    assert_ne!(nbt, plain);
}

#[test]
fn section_palette_and_states() {
    let db = BlockDatabase::new();
    let (pal, longs) = encode_section(&[(0, 0, 0, 1), (1, 0, 0, 50), (2, 0, 0, 1)], &db);
    assert_eq!(pal, vec!["minecraft:air", "minecraft:stone", "minecraft:white_wool"]);
    // Four digits per index, sixteen per word, 4096 slots.
    assert_eq!(longs.len(), 256);
    assert_eq!(longs[0], 0x121);
    assert!(longs[1..].iter().all(|&w| w == 0));
}

#[test]
fn section_skips_blocks_outside_it_but_names_them() {
    let db = BlockDatabase::new();
    // The second block's slot is 16 * 256 = 4096, the third's is negative.
    let (pal, longs) = encode_section(&[(0, 0, 0, 1), (0, 16, 0, 50), (0, -1, 0, 2)], &db);
    assert_eq!(pal.len(), 4);
    assert_eq!(pal[0], "minecraft:air");
    assert_eq!(pal[1], "minecraft:stone");
    assert_eq!(pal[2], "minecraft:white_wool");
    assert_eq!(longs.len(), 256);
    assert_eq!(longs[0], 0x1);
    assert!(longs[1..].iter().all(|&w| w == 0));
}

#[test]
fn chunk_document_names_its_position() {
    let db = BlockDatabase::new();
    let s = ExportSettings::default();
    let nbt = build_chunk_nbt(3, -2, &[(IVec3::new(48, 0, -30), 1)], &db, &s);
    assert!(nbt.starts_with(&[10, 0, 0]));
    assert!(contains(&nbt, &named_int("DataVersion", 3953)));
    assert!(contains(&nbt, &named_int("xPos", 3)));
    assert!(contains(&nbt, &named_int("zPos", -2)));
    assert!(contains(&nbt, &named_int("yPos", -4)));
}

#[test]
fn region_layout_of_two_chunks() {
    let chunks = vec![(0, 0, vec![1u8, 2, 3]), (1, 0, vec![4u8; 5000])];
    assert!(region_layout_fits(&chunks));
    let file = region_file_bytes(&chunks);
    // Header, one sector for the first chunk, two for the second.
    assert_eq!(file.len(), 8192 + 4096 + 8192);
    assert_eq!(&file[0..4], &[0, 0, 2, 1]);
    assert_eq!(&file[4..8], &[0, 0, 3, 2]);
    assert!(file[8..8192].iter().all(|&b| b == 0));
    assert_eq!(&file[8192..8200], &[0, 0, 0, 4, 2, 1, 2, 3]);
    assert_eq!(&file[12288..12293], &[0, 0, 0x13, 0x89, 2]);
}

#[test]
fn region_export_of_an_empty_grid_is_refused() {
    let db = BlockDatabase::new();
    let r = export_region(&VoxelGrid::new(), &db, &ExportSettings::default());
    assert_eq!(r.err(), Some(ExportError::EmptyGrid));
}

#[test]
fn region_export_skips_unmapped_and_out_of_world_cells() {
    let db = BlockDatabase::new();
    let mut g = VoxelGrid::new();
    g.set_voxel(IVec3::new(0, 0, 0), Voxel::new([1, 2, 3]));
    g.set_voxel(IVec3::new(1, 400, 0), block(1));
    let files = export_region(&g, &db, &ExportSettings::default()).unwrap();
    assert!(files.is_empty());
}

#[test]
fn region_export_reads_back() {
    let db = BlockDatabase::new();
    let mut g = VoxelGrid::new();
    g.set_voxel(IVec3::new(0, 0, 0), block(1));
    g.set_voxel(IVec3::new(-1, 0, 0), block(50));
    let files = export_region(&g, &db, &ExportSettings::default()).unwrap();
    // x = -1 lies in chunk -1 and region -1; x = 0 in chunk 0 and region 0.
    let keys: Vec<(i32, i32)> = files.iter().map(|f| (f.0, f.1)).collect();
    assert_eq!(keys.len(), 2);
    assert!(keys.contains(&(0, 0)) && keys.contains(&(-1, 0)));
    let file = &files.iter().find(|f| (f.0, f.1) == (0, 0)).unwrap().2;
    assert_eq!(&file[0..4], &[0, 0, 2, 1]);
    let len = u32::from_be_bytes([file[8192], file[8193], file[8194], file[8195]]) as usize;
    assert_eq!(file[8196], 2);
    let nbt = unzlib(&file[8197..8196 + len]);
    assert!(nbt.starts_with(&[10, 0, 0]));
    assert!(contains(&nbt, &named_int("xPos", 0)));
    let mut name = vec![8, 0, 4];
    name.extend_from_slice(b"Name");
    name.extend_from_slice(&[0, 15]);
    name.extend_from_slice(b"minecraft:stone");
    assert!(contains(&nbt, &name));
    // Chunk -1 sits in slot 31 of region (-1, 0).
    let west = &files.iter().find(|f| (f.0, f.1) == (-1, 0)).unwrap().2;
    assert_eq!(&west[124..128], &[0, 0, 2, 1]);
    assert!(west[0..124].iter().all(|&b| b == 0));
}

#[test]
fn region_file_name_follows_the_offset() {
    let db = BlockDatabase::new();
    let mut g = VoxelGrid::new();
    g.set_voxel(IVec3::new(0, 0, 0), block(1));
    let s = ExportSettings { version: MinecraftVersion::Java121, offset: IVec3::new(0, 64, 0) };
    let files = export_region(&g, &db, &s).unwrap();
    assert_eq!(files.len(), 1);
    assert_eq!((files[0].0, files[0].1), (0, 0));
    let far = ExportSettings { version: MinecraftVersion::Java121, offset: IVec3::new(600, 64, -20) };
    let files = export_region(&g, &db, &far).unwrap();
    assert_eq!((files[0].0, files[0].1), (1, -1));
}

#[test]
fn schematic_data_is_one_varint_per_cell() {
    let db = BlockDatabase::new();
    let mut g = VoxelGrid::new();
    g.set_voxel(IVec3::new(0, 0, 0), block(1));
    g.set_voxel(IVec3::new(1, 0, 0), block(1));
    let nbt = gunzip(&export_schem(&g, &db, &ExportSettings::default()).unwrap());
    let mut data = vec![7, 0, 4];
    data.extend_from_slice(b"Data");
    data.extend_from_slice(&[0, 0, 0, 2, 1, 1]);
    assert!(contains(&nbt, &data));
}

#[test]
fn sections_are_numbered_by_height_over_sixteen() {
    let db = BlockDatabase::new();
    let s = ExportSettings::default();
    let y_byte = |y: i8| {
        let mut v = vec![1, 0, 1, b'Y'];
        v.push(y as u8);
        v
    };
    let nbt = build_chunk_nbt(0, 0, &[(IVec3::new(0, 0, 0), 1)], &db, &s);
    assert!(contains(&nbt, &y_byte(0)));
    let nbt = build_chunk_nbt(0, 0, &[(IVec3::new(0, -64, 0), 1)], &db, &s);
    assert!(contains(&nbt, &y_byte(-4)));
    let nbt = build_chunk_nbt(0, 0, &[(IVec3::new(0, 319, 0), 1), (IVec3::new(0, 17, 0), 1)], &db, &s);
    assert!(contains(&nbt, &y_byte(19)));
    assert!(contains(&nbt, &y_byte(1)));
    // Sections come bottom up: Y = 1 before Y = 19.
    let at = |y: i8| nbt.windows(5).position(|w| w == y_byte(y).as_slice()).unwrap();
    assert!(at(1) < at(19));
}
