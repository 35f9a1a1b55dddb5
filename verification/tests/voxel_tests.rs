use chunky::geom::{div_floor, IVec3};
use chunky::voxel::{Voxel, VoxelChunk, VoxelGrid};

fn vp(x: i32, y: i32, z: i32) -> IVec3 {
    IVec3::new(x, y, z)
}

#[test]
fn voxel_new_is_occupied_and_unmapped() {
    let v = Voxel::new([1, 2, 3]);
    assert!(v.occupied);
    assert_eq!(v.color, [1, 2, 3]);
    assert_eq!(v.block_id, 0);
}

#[test]
fn voxel_default_is_empty() {
    let v = Voxel::default();
    assert!(!v.occupied);
    assert_eq!(v.color, [0, 0, 0]);
    assert_eq!(v.block_id, 0);
}

#[test]
fn chunk_starts_empty() {
    let c = VoxelChunk::new();
    assert_eq!(c.voxels.len(), 32 * 32 * 32);
    assert!(c.is_empty());
    assert_eq!(c.occupied_count(), 0);
}

#[test]
fn chunk_index_is_x_then_y_then_z() {
    assert_eq!(VoxelChunk::idx(0, 0, 0), 0);
    assert_eq!(VoxelChunk::idx(1, 2, 3), 1 + 2 * 32 + 3 * 1024);
    assert_eq!(VoxelChunk::idx(31, 31, 31), 32767);
}

#[test]
fn chunk_get_mut_writes_through() {
    let mut c = VoxelChunk::new();
    *c.get_mut(1, 2, 3) = Voxel::new([9, 8, 7]);
    assert!(c.get(1, 2, 3).occupied);
    assert_eq!(c.get(1, 2, 3).color, [9, 8, 7]);
    assert!(!c.get(2, 2, 3).occupied);
    assert!(!c.is_empty());
    assert_eq!(c.occupied_count(), 1);
}

#[test]
fn voxel_to_chunk_rounds_down() {
    let (c, l) = VoxelGrid::voxel_to_chunk(vp(-1, 40, 5));
    assert_eq!(c, vp(-1, 1, 0));
    assert_eq!(l, [31, 8, 5]);
    let (c, l) = VoxelGrid::voxel_to_chunk(vp(-32, -33, 31));
    assert_eq!(c, vp(-1, -2, 0));
    assert_eq!(l, [0, 31, 31]);
}

#[test]
fn div_floor_rounds_toward_negative_infinity() {
    assert_eq!(div_floor(7, 2), 3);
    assert_eq!(div_floor(-7, 2), -4);
    assert_eq!(div_floor(-16, 16), -1);
    assert_eq!(div_floor(-17, 16), -2);
    assert_eq!(div_floor(i32::MIN, 32), -67108864);
}

#[test]
fn get_after_set_returns_the_voxel() {
    let mut g = VoxelGrid::new();
    let v = Voxel::new([10, 20, 30]);
    g.set_voxel(vp(-1, 40, 5), v);
    let got = g.get_voxel(vp(-1, 40, 5)).expect("cell stored");
    assert!(got.occupied);
    assert_eq!(got.color, [10, 20, 30]);
    assert!(g.is_occupied(vp(-1, 40, 5)));
    // Another cell of the same chunk exists but is empty.
    let other = g.get_voxel(vp(-2, 40, 5)).expect("same chunk");
    assert!(!other.occupied);
    // A cell of a chunk never touched is absent.
    assert!(g.get_voxel(vp(100, 0, 0)).is_none());
    assert!(!g.is_occupied(vp(100, 0, 0)));
}

#[test]
fn set_overwrites_and_leaves_neighbours() {
    let mut g = VoxelGrid::new();
    g.set_voxel(vp(1, 1, 1), Voxel::new([1, 1, 1]));
    g.set_voxel(vp(2, 1, 1), Voxel::new([2, 2, 2]));
    g.set_voxel(vp(1, 1, 1), Voxel::new([3, 3, 3]));
    assert_eq!(g.get_voxel(vp(1, 1, 1)).unwrap().color, [3, 3, 3]);
    assert_eq!(g.get_voxel(vp(2, 1, 1)).unwrap().color, [2, 2, 2]);
    assert_eq!(g.chunks.len(), 1);
}

#[test]
fn total_counts_occupied_cells() {
    let mut g = VoxelGrid::new();
    assert_eq!(g.total_voxels(), 0);
    g.set_voxel(vp(0, 0, 0), Voxel::new([1, 1, 1]));
    g.set_voxel(vp(40, 0, 0), Voxel::new([1, 1, 1]));
    g.set_voxel(vp(40, 0, 0), Voxel::new([2, 2, 2]));
    g.set_voxel(vp(-5, 3, 2), Voxel::new([1, 1, 1]));
    g.set_voxel(vp(7, 7, 7), Voxel::default());
    assert_eq!(g.total_voxels(), 3);
    assert_eq!(g.iter_occupied().len(), 3);
}

#[test]
fn bounds_cover_occupied_cells() {
    let mut g = VoxelGrid::new();
    assert!(g.bounds_voxel().is_none());
    g.set_voxel(vp(3, -4, 10), Voxel::new([1, 1, 1]));
    g.set_voxel(vp(-7, 2, 0), Voxel::new([1, 1, 1]));
    g.set_voxel(vp(50, 50, 50), Voxel::default());
    let (mn, mx) = g.bounds_voxel().unwrap();
    assert_eq!(mn, vp(-7, -4, 0));
    assert_eq!(mx, vp(3, 2, 10));
}

#[test]
fn bounds_of_chunks_without_occupied_cells() {
    let mut g = VoxelGrid::new();
    g.set_voxel(vp(0, 0, 0), Voxel::default());
    let (mn, mx) = g.bounds_voxel().unwrap();
    assert_eq!(mn, IVec3::splat(i32::MAX));
    assert_eq!(mx, IVec3::splat(i32::MIN));
}

#[test]
fn iteration_goes_chunk_by_chunk_in_index_order() {
    let mut g = VoxelGrid::new();
    g.set_voxel(vp(1, 0, 0), Voxel::new([1, 0, 0]));
    g.set_voxel(vp(32, 0, 0), Voxel::new([2, 0, 0]));
    g.set_voxel(vp(0, 1, 0), Voxel::new([3, 0, 0]));
    g.set_voxel(vp(0, 0, 0), Voxel::new([4, 0, 0]));
    let cells: Vec<IVec3> = g.iter_occupied().iter().map(|e| e.0).collect();
    assert_eq!(cells, vec![vp(0, 0, 0), vp(1, 0, 0), vp(0, 1, 0), vp(32, 0, 0)]);
}

#[test]
fn retain_nonempty_drops_empty_chunks() {
    let mut g = VoxelGrid::new();
    g.set_voxel(vp(0, 0, 0), Voxel::new([1, 1, 1]));
    g.set_voxel(vp(100, 0, 0), Voxel::default());
    assert_eq!(g.chunks.len(), 2);
    g.retain_nonempty();
    assert_eq!(g.chunks.len(), 1);
    assert!(g.is_occupied(vp(0, 0, 0)));
    assert!(g.get_voxel(vp(100, 0, 0)).is_none());
}

#[test]
fn ivec3_componentwise_ops() {
    let a = vp(1, -2, 3);
    let b = vp(-4, 5, 3);
    assert_eq!(a.add(b), vp(-3, 3, 6));
    assert_eq!(a.min(b), vp(-4, -2, 3));
    assert_eq!(a.max(b), vp(1, 5, 3));
}
