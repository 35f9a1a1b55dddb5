use chunky::geom::IVec3;
use chunky::voxel::{Voxel, VoxelGrid};
use chunky::voxelize::{fill_solid, find_nearby_color, merge_rasterized, voxelize_cells, VoxelizeMode};

fn xp(x: i32, y: i32, z: i32) -> IVec3 {
    IVec3::new(x, y, z)
}

#[test]
fn merging_keeps_the_first_occupied_write() {
    let lists = vec![
        vec![(xp(0, 0, 0), Voxel::new([1, 0, 0])), (xp(1, 0, 0), Voxel::new([2, 0, 0]))],
        vec![(xp(0, 0, 0), Voxel::new([3, 0, 0])), (xp(5, 5, 5), Voxel::new([4, 0, 0]))],
    ];
    let mut g = VoxelGrid::new();
    merge_rasterized(&mut g, &lists);
    assert_eq!(g.get_voxel(xp(0, 0, 0)).unwrap().color, [1, 0, 0]);
    assert_eq!(g.get_voxel(xp(1, 0, 0)).unwrap().color, [2, 0, 0]);
    assert_eq!(g.get_voxel(xp(5, 5, 5)).unwrap().color, [4, 0, 0]);
    assert_eq!(g.total_voxels(), 3);
}

#[test]
fn merging_overwrites_unoccupied_cells() {
    let lists = vec![vec![(xp(0, 0, 0), Voxel::default()), (xp(0, 0, 0), Voxel::new([9, 9, 9]))]];
    let mut g = VoxelGrid::new();
    merge_rasterized(&mut g, &lists);
    assert_eq!(g.get_voxel(xp(0, 0, 0)).unwrap().color, [9, 9, 9]);
    assert!(g.is_occupied(xp(0, 0, 0)));
}

#[test]
fn merging_keeps_cells_already_in_the_grid() {
    let mut g = VoxelGrid::new();
    g.set_voxel(xp(2, 2, 2), Voxel::new([7, 7, 7]));
    merge_rasterized(&mut g, &vec![vec![(xp(2, 2, 2), Voxel::new([1, 1, 1]))]]);
    assert_eq!(g.get_voxel(xp(2, 2, 2)).unwrap().color, [7, 7, 7]);
}

#[test]
fn nearby_color_searches_outward() {
    let mut g = VoxelGrid::new();
    g.set_voxel(xp(3, 0, 0), Voxel::new([30, 0, 0]));
    g.set_voxel(xp(0, 0, -2), Voxel::new([40, 0, 0]));
    // Radius 2 holds both; dz = -2 comes first in the search.
    assert_eq!(find_nearby_color(&g, xp(0, 0, 0)), [40, 0, 0]);
    // Radius 1 around (2, 0, 0) holds only (3, 0, 0).
    assert_eq!(find_nearby_color(&g, xp(2, 0, 0)), [30, 0, 0]);
    // Nothing within five cells: grey.
    assert_eq!(find_nearby_color(&g, xp(20, 20, 20)), [128, 128, 128]);
    // The cell itself lies on the first shell, after the cells with smaller dz, dy, dx.
    assert_eq!(find_nearby_color(&g, xp(3, 0, 0)), [30, 0, 0]);
}

fn row_shell() -> Vec<Vec<(IVec3, Voxel)>> {
    vec![vec![(xp(0, 0, 0), Voxel::new([10, 0, 0])), (xp(4, 0, 0), Voxel::new([50, 0, 0]))]]
}

#[test]
fn solid_fills_between_runs() {
    let g = voxelize_cells(VoxelizeMode::Solid, &row_shell());
    for x in 0..5 {
        assert!(g.is_occupied(xp(x, 0, 0)), "cell {} filled", x);
    }
    assert_eq!(g.total_voxels(), 5);
    // Each fill takes the first colour its search meets; (x - 1, 0, 0) comes before
    // (x + 1, 0, 0), and earlier fills count.
    for x in 1..4 {
        let v = g.get_voxel(xp(x, 0, 0)).unwrap();
        assert_eq!(v.color, [10, 0, 0]);
        assert_eq!(v.block_id, 0);
    }
    assert_eq!(g.get_voxel(xp(4, 0, 0)).unwrap().color, [50, 0, 0]);
}

#[test]
fn surface_and_hybrid_do_not_fill() {
    for mode in [VoxelizeMode::Surface, VoxelizeMode::Hybrid] {
        let g = voxelize_cells(mode, &row_shell());
        assert_eq!(g.total_voxels(), 2);
        assert!(!g.is_occupied(xp(2, 0, 0)));
    }
}

#[test]
fn fill_toggles_at_each_run_start() {
    // Runs at x = 0..=1, 4, 7: inside after the first run, outside after the second,
    // inside again after the third until the end of the box.
    let mut g = VoxelGrid::new();
    for x in [0, 1, 4, 7] {
        g.set_voxel(xp(x, 0, 0), Voxel::new([1, 2, 3]));
    }
    fill_solid(&mut g);
    let filled: Vec<i32> = (0..8).filter(|&x| g.is_occupied(xp(x, 0, 0))).collect();
    assert_eq!(filled, vec![0, 1, 2, 3, 4, 7]);
}

#[test]
fn fill_on_an_empty_grid_does_nothing() {
    let mut g = VoxelGrid::new();
    fill_solid(&mut g);
    assert_eq!(g.chunks.len(), 0);
}

#[test]
fn fill_works_row_by_row() {
    // Two rows at different heights; the box spans y = 0..=1 and z = 0..=0.
    let mut g = VoxelGrid::new();
    g.set_voxel(xp(0, 0, 0), Voxel::new([1, 1, 1]));
    g.set_voxel(xp(3, 0, 0), Voxel::new([1, 1, 1]));
    g.set_voxel(xp(1, 1, 0), Voxel::new([2, 2, 2]));
    fill_solid(&mut g);
    assert!(g.is_occupied(xp(1, 0, 0)) && g.is_occupied(xp(2, 0, 0)));
    // Row y = 1 enters at x = 1 and never leaves: x = 2 and 3 are filled.
    assert!(!g.is_occupied(xp(0, 1, 0)));
    assert!(g.is_occupied(xp(2, 1, 0)) && g.is_occupied(xp(3, 1, 0)));
    assert_eq!(g.total_voxels(), 7);
}
