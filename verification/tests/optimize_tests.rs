use chunky::geom::IVec3;
use chunky::optimize::{count_neighbors, is_face_visible, neighbor_dir, optimize, remove_noise, OptimizeSettings};
use chunky::voxel::{Voxel, VoxelGrid};

fn op(x: i32, y: i32, z: i32) -> IVec3 {
    IVec3::new(x, y, z)
}

fn line_and_speck() -> VoxelGrid {
    let mut g = VoxelGrid::new();
    for x in 0..3 {
        g.set_voxel(op(x, 0, 0), Voxel::new([1, 1, 1]));
    }
    // A lone cell in a chunk of its own.
    g.set_voxel(op(100, 0, 0), Voxel::new([2, 2, 2]));
    g
}

#[test]
fn default_settings() {
    let s = OptimizeSettings::default();
    assert!(s.remove_hidden);
    assert!(!s.noise_filter);
    assert_eq!(s.noise_threshold, 1);
}

#[test]
fn neighbour_directions() {
    assert_eq!(neighbor_dir(0), op(1, 0, 0));
    assert_eq!(neighbor_dir(1), op(-1, 0, 0));
    assert_eq!(neighbor_dir(2), op(0, 1, 0));
    assert_eq!(neighbor_dir(3), op(0, -1, 0));
    assert_eq!(neighbor_dir(4), op(0, 0, 1));
    assert_eq!(neighbor_dir(5), op(0, 0, -1));
}

#[test]
fn neighbours_are_counted_on_faces() {
    let g = line_and_speck();
    assert_eq!(count_neighbors(&g, op(1, 0, 0)), 2);
    assert_eq!(count_neighbors(&g, op(0, 0, 0)), 1);
    assert_eq!(count_neighbors(&g, op(100, 0, 0)), 0);
    assert_eq!(count_neighbors(&g, op(1, 1, 0)), 1);
}

#[test]
fn noise_filter_removes_isolated_cells_and_their_chunks() {
    let mut g = line_and_speck();
    remove_noise(&mut g, 1);
    assert!(g.is_occupied(op(0, 0, 0)));
    assert!(g.is_occupied(op(2, 0, 0)));
    assert!(!g.is_occupied(op(100, 0, 0)));
    assert_eq!(g.chunks.len(), 1);
    assert_eq!(g.total_voxels(), 3);
}

#[test]
fn noise_filter_counts_on_the_grid_before_clearing() {
    // With threshold 2 the ends of the line go (one neighbour each); the middle keeps two
    // neighbours in the original grid, so it stays although both ends are cleared.
    let mut g = line_and_speck();
    remove_noise(&mut g, 2);
    assert!(g.is_occupied(op(1, 0, 0)));
    assert!(!g.is_occupied(op(0, 0, 0)));
    assert!(!g.is_occupied(op(2, 0, 0)));
    assert_eq!(g.total_voxels(), 1);
    // Cleared cells keep their colour but are no longer occupied.
    let v = g.get_voxel(op(0, 0, 0)).unwrap();
    assert!(!v.occupied);
    assert_eq!(v.color, [1, 1, 1]);
}

#[test]
fn optimize_runs_the_noise_filter_only_when_asked() {
    let mut g = line_and_speck();
    optimize(&mut g, &OptimizeSettings::default());
    assert_eq!(g.total_voxels(), 4);
    let s = OptimizeSettings { remove_hidden: true, noise_filter: true, noise_threshold: 1 };
    optimize(&mut g, &s);
    assert_eq!(g.total_voxels(), 3);
}

#[test]
fn faces_against_occupied_cells_are_hidden() {
    let g = line_and_speck();
    assert!(!is_face_visible(&g, op(1, 0, 0), op(1, 0, 0)));
    assert!(is_face_visible(&g, op(1, 0, 0), op(0, 1, 0)));
    assert!(is_face_visible(&g, op(2, 0, 0), op(1, 0, 0)));
}
