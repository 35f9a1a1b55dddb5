//! The library's laws, checked on concrete values.
use std::collections::HashMap;

use chunky::geom::IVec3;
use chunky::palette::BlockDatabase;
use chunky::voxel::{Voxel, VoxelGrid};
use chunky::voxelize::{voxelize_cells, VoxelizeMode};

struct Lcg(u64);

impl Lcg {
    fn next(&mut self) -> u64 {
        self.0 = self.0.wrapping_mul(6364136223846793005).wrapping_add(1442695040888963407);
        self.0 >> 33
    }
    fn range(&mut self, lo: i32, hi: i32) -> i32 {
        lo + (self.next() % (hi - lo + 1) as u64) as i32
    }
}

#[test]
fn law_grid_reads_back_the_last_write() {
    let mut rng = Lcg(7);
    let mut g = VoxelGrid::new();
    let mut model: HashMap<(i32, i32, i32), Voxel> = HashMap::new();
    for _ in 0..2000 {
        let p = (rng.range(-70, 70), rng.range(-40, 40), rng.range(-70, 70));
        let v = if rng.next() % 4 == 0 {
            Voxel::default()
        } else {
            Voxel::new([rng.next() as u8, rng.next() as u8, rng.next() as u8])
        };
        g.set_voxel(IVec3::new(p.0, p.1, p.2), v);
        model.insert(p, v);
    }
    for (p, v) in &model {
        let got = g.get_voxel(IVec3::new(p.0, p.1, p.2)).unwrap();
        assert_eq!(got.occupied, v.occupied);
        assert_eq!(got.color, v.color);
        assert_eq!(got.block_id, v.block_id);
    }
    // The count of occupied cells is the number of distinct occupied positions.
    let occupied = model.values().filter(|v| v.occupied).count();
    assert_eq!(g.total_voxels(), occupied);
    let listed = g.iter_occupied();
    assert_eq!(listed.len(), occupied);
    let mut seen: Vec<IVec3> = listed.iter().map(|e| e.0).collect();
    seen.sort_by_key(|p| (p.x, p.y, p.z));
    seen.dedup();
    assert_eq!(seen.len(), occupied);
}

#[test]
fn law_each_write_moves_the_count_by_one_cell() {
    let mut rng = Lcg(19);
    let mut g = VoxelGrid::new();
    for _ in 0..500 {
        let p = IVec3::new(rng.range(-40, 40), rng.range(-40, 40), rng.range(-40, 40));
        let v = if rng.next() % 3 == 0 {
            Voxel::default()
        } else {
            Voxel::new([1, 2, 3])
        };
        let before = g.total_voxels();
        let was = g.is_occupied(p);
        g.set_voxel(p, v);
        let expected = before - was as usize + v.occupied as usize;
        assert_eq!(g.total_voxels(), expected);
    }
}

#[test]
fn law_surface_cell_comes_from_the_lowest_triangle() {
    let mut rng = Lcg(23);
    let mut lists: Vec<Vec<(IVec3, Voxel)>> = Vec::new();
    for t in 0..40u8 {
        let mut list = Vec::new();
        for _ in 0..(rng.next() % 8) {
            let p = IVec3::new(rng.range(-3, 3), rng.range(-3, 3), rng.range(-3, 3));
            let v = if rng.next() % 5 == 0 { Voxel::default() } else { Voxel::new([t, 0, 0]) };
            list.push((p, v));
        }
        lists.push(list);
    }
    let g = voxelize_cells(VoxelizeMode::Surface, &lists);
    for x in -3..=3 {
        for y in -3..=3 {
            for z in -3..=3 {
                let p = IVec3::new(x, y, z);
                let first = lists.iter().flatten().find(|(q, v)| *q == p && v.occupied);
                match first {
                    Some((_, v)) => {
                        assert!(g.is_occupied(p));
                        assert_eq!(g.get_voxel(p).unwrap().color, v.color);
                    }
                    None => assert!(!g.is_occupied(p)),
                }
            }
        }
    }
}

#[test]
fn law_best_match_is_the_earliest_least_key() {
    let db = BlockDatabase::new();
    let mut rng = Lcg(11);
    for _ in 0..50 {
        let keys: Vec<u64> = db.blocks.iter().map(|_| rng.next() % 40).collect();
        let best = db.find_best_match(&keys, None);
        let (i, _) = db
            .blocks
            .iter()
            .enumerate()
            .filter(|(_, b)| b.opaque)
            .min_by_key(|(i, _)| (keys[*i], *i))
            .unwrap();
        assert_eq!(best, db.blocks[i].id);
    }
}
