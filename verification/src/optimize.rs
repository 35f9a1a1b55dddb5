//! Clean-up passes over a voxelized model.
use vstd::prelude::*;

use crate::geom::IVec3;
use crate::voxel::{
    chunk_is_empty, chunk_of, lemma_chunk_of_range, lemma_pos_in_chunk, local_index, pos_in_chunk,
    Voxel, VoxelGrid,
};

verus! {

#[derive(Clone, Copy, Debug)]
pub struct OptimizeSettings {
    pub remove_hidden: bool,
    pub noise_filter: bool,
    /// Least number of occupied face neighbors a cell needs to survive the noise filter.
    pub noise_threshold: usize,
}

impl Default for OptimizeSettings {
    fn default() -> (r: OptimizeSettings)
        ensures
            r.remove_hidden,
            !r.noise_filter,
            r.noise_threshold == 1,
    {
        OptimizeSettings { remove_hidden: true, noise_filter: false, noise_threshold: 1 }
    }
}

/// The `k`-th of the six face directions: +x, -x, +y, -y, +z, -z.
pub open spec fn face_dir(k: int) -> IVec3 {
    if k == 0 {
        IVec3 { x: 1, y: 0, z: 0 }
    } else if k == 1 {
        IVec3 { x: -1i32, y: 0, z: 0 }
    } else if k == 2 {
        IVec3 { x: 0, y: 1, z: 0 }
    } else if k == 3 {
        IVec3 { x: 0, y: -1i32, z: 0 }
    } else if k == 4 {
        IVec3 { x: 0, y: 0, z: 1 }
    } else {
        IVec3 { x: 0, y: 0, z: -1i32 }
    }
}

pub fn neighbor_dir(k: usize) -> (r: IVec3)
    requires
        k < 6,
    ensures
        r == face_dir(k as int),
{
    if k == 0 {
        IVec3::new(1, 0, 0)
    } else if k == 1 {
        IVec3::new(-1, 0, 0)
    } else if k == 2 {
        IVec3::new(0, 1, 0)
    } else if k == 3 {
        IVec3::new(0, -1, 0)
    } else if k == 4 {
        IVec3::new(0, 0, 1)
    } else {
        IVec3::new(0, 0, -1)
    }
}

/// A cell whose six face neighbors all have `i32` coordinates.
pub open spec fn interior(p: IVec3) -> bool {
    &&& i32::MIN < p.x < i32::MAX
    &&& i32::MIN < p.y < i32::MAX
    &&& i32::MIN < p.z < i32::MAX
}

/// Number of occupied cells among the first `k` face neighbors of `p`.
pub open spec fn neighbors_upto(grid: VoxelGrid, p: IVec3, k: int) -> nat
    decreases k,
{
    if k <= 0 {
        0
    } else {
        neighbors_upto(grid, p, k - 1) + (if grid.occupied(p.spec_add(face_dir(k - 1))) {
            1nat
        } else {
            0nat
        })
    }
}

/// Number of occupied face neighbors of `p`.
pub open spec fn neighbor_count(grid: VoxelGrid, p: IVec3) -> nat {
    neighbors_upto(grid, p, 6)
}

/// Every occupied cell is interior, so its neighbors can be addressed.
pub open spec fn occupied_interior(grid: VoxelGrid) -> bool {
    forall|p: IVec3| #[trigger] grid.occupied(p) ==> interior(p)
}

pub fn count_neighbors(grid: &VoxelGrid, pos: IVec3) -> (r: usize)
    requires
        grid.wf(),
        interior(pos),
    ensures
        r == neighbor_count(*grid, pos),
{
    let mut count: usize = 0;
    let mut k: usize = 0;
    while k < 6
        invariant
            grid.wf(),
            interior(pos),
            k <= 6,
            count == neighbors_upto(*grid, pos, k as int),
            count <= k,
        decreases 6 - k,
    {
        let d = neighbor_dir(k);
        if grid.is_occupied(pos.add(d)) {
            count = count + 1;
        }
        k = k + 1;
    }
    count
}

/// The cell `(dx, dy, dz)` away from `p`.
pub open spec fn step(p: IVec3, dx: int, dy: int, dz: int) -> IVec3 {
    IVec3 { x: (p.x + dx) as i32, y: (p.y + dy) as i32, z: (p.z + dz) as i32 }
}

/// 1 when the cell `(dx, dy, dz)` away from `p` is occupied, else 0.
pub open spec fn occupied_at(grid: VoxelGrid, p: IVec3, dx: int, dy: int, dz: int) -> int {
    if grid.occupied(step(p, dx, dy, dz)) {
        1
    } else {
        0
    }
}

/// The neighbor count of `p` is the number of occupied cells among the six cells that
/// share a face with it: one step along +x, -x, +y, -y, +z and -z.
pub proof fn lemma_neighbor_count_faces(grid: VoxelGrid, p: IVec3)
    requires
        interior(p),
    ensures
        neighbor_count(grid, p) == occupied_at(grid, p, 1, 0, 0) + occupied_at(grid, p, -1, 0, 0)
            + occupied_at(grid, p, 0, 1, 0) + occupied_at(grid, p, 0, -1, 0) + occupied_at(
            grid,
            p,
            0,
            0,
            1,
        ) + occupied_at(grid, p, 0, 0, -1),
{
    reveal_with_fuel(neighbors_upto, 7);
    assert(p.spec_add(face_dir(0)) == step(p, 1, 0, 0));
    assert(p.spec_add(face_dir(1)) == step(p, -1, 0, 0));
    assert(p.spec_add(face_dir(2)) == step(p, 0, 1, 0));
    assert(p.spec_add(face_dir(3)) == step(p, 0, -1, 0));
    assert(p.spec_add(face_dir(4)) == step(p, 0, 0, 1));
    assert(p.spec_add(face_dir(5)) == step(p, 0, 0, -1));
}

/// An occupied cell with an occupied cell on any of its six faces survives the noise filter
/// at threshold 1.
pub proof fn lemma_face_neighbor_survives(grid: VoxelGrid, p: IVec3, dx: int, dy: int, dz: int)
    requires
        interior(p),
        grid.occupied(p),
        grid.occupied(step(p, dx, dy, dz)),
        (dx == 1 || dx == -1) && dy == 0 && dz == 0 || dx == 0 && (dy == 1 || dy == -1) && dz == 0
            || dx == 0 && dy == 0 && (dz == 1 || dz == -1),
    ensures
        survives(grid, p, 1),
{
    lemma_neighbor_count_faces(grid, p);
}

/// Whether a cell survives a noise filter with threshold `min_neighbors`.
pub open spec fn survives(grid: VoxelGrid, p: IVec3, min_neighbors: nat) -> bool {
    grid.occupied(p) && neighbor_count(grid, p) >= min_neighbors
}

/// The cell after the filter: same contents, occupied only if it survives.
pub open spec fn filtered(v: Voxel, keep: bool) -> Voxel {
    Voxel { occupied: keep, color: v.color, block_id: v.block_id }
}

/// Clears every occupied cell with fewer than `min_neighbors` occupied face neighbors
/// (counted on the grid as it was before any cell was cleared), then drops empty chunks.
pub fn remove_noise(grid: &mut VoxelGrid, min_neighbors: usize)
    requires
        old(grid).wf(),
        occupied_interior(*old(grid)),
    ensures
        final(grid).wf(),
        forall|p: IVec3| #[trigger]
            final(grid).occupied(p) == survives(*old(grid), p, min_neighbors as nat),
        forall|p: IVec3|
            final(grid).has_chunk(chunk_of(p)) ==> #[trigger] final(grid).cell(p) == Some(
                filtered(
                    old(grid).cell(p).unwrap(),
                    survives(*old(grid), p, min_neighbors as nat),
                ),
            ),
        forall|c: IVec3| #[trigger]
            final(grid).has_chunk(c) ==> old(grid).has_chunk(c),
        forall|p: IVec3|
            survives(*old(grid), p, min_neighbors as nat) ==> #[trigger] final(grid).has_chunk(
                chunk_of(p),
            ),
        forall|c: IVec3| #[trigger]
            final(grid).has_chunk(c) ==> exists|p: IVec3|
                #[trigger] chunk_of(p) == c && survives(*old(grid), p, min_neighbors as nat),
{
    let occupied = grid.iter_occupied();
    let ghost list = old(grid).occupied_list();
    let ghost min = min_neighbors as nat;
    proof {
        old(grid).lemma_occupied_list_exact();
    }
    // Decide every cell against the unmodified grid first.
    let mut drop: Vec<bool> = Vec::new();
    let mut i: usize = 0;
    while i < occupied.len()
        invariant
            grid.wf(),
            *grid == *old(grid),
            occupied_interior(*old(grid)),
            occupied@ == list,
            list == old(grid).occupied_list(),
            min == min_neighbors as nat,
            i <= occupied.len(),
            drop@.len() == i,
            forall|k: int|
                0 <= k < list.len() ==> old(grid).occupied((#[trigger] list[k]).0),
            forall|k: int|
                0 <= k < i ==> #[trigger] drop@[k] == (neighbor_count(*old(grid), list[k].0) < min),
        decreases occupied.len() - i,
    {
        let pos = occupied[i].0;
        assert(old(grid).occupied(list[i as int].0));
        let n = count_neighbors(grid, pos);
        drop.push(n < min_neighbors);
        assert(n == neighbor_count(*old(grid), list[i as int].0));
        assert(drop@[i as int] == (neighbor_count(*old(grid), list[i as int].0) < min));
        i = i + 1;
    }
    // Clear the cells that fail.
    let mut i: usize = 0;
    while i < occupied.len()
        invariant
            grid.wf(),
            occupied@ == list,
            list == old(grid).occupied_list(),
            min == min_neighbors as nat,
            drop@.len() == list.len(),
            i <= occupied.len(),
            forall|c: IVec3| #[trigger] grid.has_chunk(c) == old(grid).has_chunk(c),
            forall|k: int|
                0 <= k < list.len() ==> old(grid).occupied((#[trigger] list[k]).0) && old(grid).cell(
                    list[k].0,
                ) == Some(list[k].1),
            forall|k1: int, k2: int|
                0 <= k1 < list.len() && 0 <= k2 < list.len() && k1 != k2 ==> (#[trigger] list[k1]).0
                    != (#[trigger] list[k2]).0,
            forall|k: int|
                0 <= k < list.len() ==> #[trigger] drop@[k] == (neighbor_count(
                    *old(grid),
                    list[k].0,
                ) < min),
            forall|k: int|
                0 <= k < i ==> grid.cell((#[trigger] list[k]).0) == Some(
                    filtered(list[k].1, !drop@[k]),
                ),
            forall|k: int| i <= k < list.len() ==> grid.cell((#[trigger] list[k]).0) == old(grid).cell(list[k].0),
            forall|p: IVec3| !old(grid).occupied(p) ==> #[trigger] grid.cell(p) == old(grid).cell(p),
        decreases occupied.len() - i,
    {
        let (pos, v) = occupied[i];
        if drop[i] {
            assert(grid.has_chunk(chunk_of(pos)));
            grid.set_voxel(pos, Voxel { occupied: false, color: v.color, block_id: v.block_id });
        }
        proof {
            assert forall|k: int| 0 <= k < i + 1 implies grid.cell((#[trigger] list[k]).0) == Some(
                filtered(list[k].1, !drop@[k]),
            ) by {
                if k < i {
                    assert(list[k].0 != list[i as int].0);
                }
            }
            assert forall|k: int| i + 1 <= k < list.len() implies grid.cell((#[trigger] list[k]).0)
                == old(grid).cell(list[k].0) by {
                assert(list[k].0 != list[i as int].0);
            }
            assert forall|p: IVec3| !old(grid).occupied(p) implies #[trigger] grid.cell(p) == old(
                grid,
            ).cell(p) by {
                if p == pos {
                    assert(old(grid).occupied(pos));
                }
            }
        }
        i = i + 1;
    }
    let ghost mid = *grid;
    proof {
        assert forall|p: IVec3| mid.has_chunk(chunk_of(p)) implies #[trigger] mid.cell(p) == Some(
            filtered(old(grid).cell(p).unwrap(), survives(*old(grid), p, min)),
        ) by {
            if old(grid).occupied(p) {
                let k = choose|k: int| 0 <= k < list.len() && (#[trigger] list[k]).0 == p;
                assert(mid.cell(list[k].0) == Some(filtered(list[k].1, !drop@[k])));
            } else {
                assert(old(grid).has_chunk(chunk_of(p)));
            }
        }
    }
    grid.retain_nonempty();
    proof {
        assert forall|p: IVec3| #[trigger] grid.occupied(p) == survives(*old(grid), p, min) by {
            lemma_chunk_of_range(p);
            if survives(*old(grid), p, min) {
                let c = chunk_of(p);
                let i = mid.chunk_index(c);
                mid.lemma_chunk_index(i);
                let vs = mid.chunks@[i].1.voxels@;
                assert(vs[local_index(p)].occupied);
                assert(!chunk_is_empty(vs));
                assert(grid.has_chunk(c));
            }
        }
        assert forall|p: IVec3|
            survives(*old(grid), p, min) implies #[trigger] grid.has_chunk(chunk_of(p)) by {
            assert(grid.occupied(p));
        }
        assert forall|c: IVec3| #[trigger] grid.has_chunk(c) implies exists|p: IVec3|
            #[trigger] chunk_of(p) == c && survives(*old(grid), p, min) by {
            let i = mid.chunk_index(c);
            mid.lemma_chunk_index(i);
            let vs = mid.chunks@[i].1.voxels@;
            assert(!chunk_is_empty(vs));
            let idx = choose|idx: int| 0 <= idx < vs.len() && (#[trigger] vs[idx]).occupied;
            let p = pos_in_chunk(c, idx);
            lemma_pos_in_chunk(c, idx);
            assert(mid.cell(p) == Some(vs[idx]));
            assert(mid.occupied(p));
        }
    }
}

/// Runs the passes the settings ask for. Hidden cells are kept: they are part of the shape.
pub fn optimize(grid: &mut VoxelGrid, settings: &OptimizeSettings)
    requires
        old(grid).wf(),
        settings.noise_filter ==> occupied_interior(*old(grid)),
    ensures
        final(grid).wf(),
        settings.noise_filter ==> forall|p: IVec3| #[trigger]
            final(grid).occupied(p) == survives(*old(grid), p, settings.noise_threshold as nat),
        settings.noise_filter ==> forall|p: IVec3|
            final(grid).has_chunk(chunk_of(p)) ==> #[trigger] final(grid).cell(p) == Some(
                filtered(
                    old(grid).cell(p).unwrap(),
                    survives(*old(grid), p, settings.noise_threshold as nat),
                ),
            ),
        settings.noise_filter ==> forall|c: IVec3| #[trigger]
            final(grid).has_chunk(c) ==> old(grid).has_chunk(c),
        settings.noise_filter ==> forall|p: IVec3|
            survives(*old(grid), p, settings.noise_threshold as nat)
                ==> #[trigger] final(grid).has_chunk(chunk_of(p)),
        settings.noise_filter ==> forall|c: IVec3| #[trigger]
            final(grid).has_chunk(c) ==> exists|p: IVec3|
                #[trigger] chunk_of(p) == c && survives(
                    *old(grid),
                    p,
                    settings.noise_threshold as nat,
                ),
        !settings.noise_filter ==> final(grid).chunks@ == old(grid).chunks@,
{
    if settings.noise_filter {
        remove_noise(grid, settings.noise_threshold);
    }
}

/// Whether the face of `pos` towards `direction` is exposed: the neighbor there is not occupied.
pub fn is_face_visible(grid: &VoxelGrid, pos: IVec3, direction: IVec3) -> (r: bool)
    requires
        grid.wf(),
        pos.add_fits(direction),
    ensures
        r == !grid.occupied(pos.spec_add(direction)),
{
    !grid.is_occupied(pos.add(direction))
}

} // verus!
