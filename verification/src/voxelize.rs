//! Turning rasterized triangle cells into a grid, and filling closed shapes.
//!
//! Rasterizing a triangle works on floating-point geometry and happens outside
//! this library; what comes back is, per triangle, the list of cells it touches
//! with the colour sampled for each. This module merges those lists into a grid
//! and, for solid models, fills the inside of the shell row by row.
use vstd::prelude::*;

use crate::geom::IVec3;
use crate::voxel::{
    empty_voxel, lemma_max_on_axis, lemma_min_on_axis, max_on_axis, min_on_axis, Voxel, VoxelGrid,
};

verus! {

/// How a model is turned into cells.
#[derive(Clone, Copy, Debug, PartialEq, Eq, Structural)]
pub enum VoxelizeMode {
    /// Only the cells that the surface passes through.
    Surface,
    /// The surface, then everything it encloses.
    Solid,
    /// The surface; the inside is left to later stages.
    Hybrid,
}

// ---------------------------------------------------------------------------
// Searching the neighbourhood of a cell for a colour
// ---------------------------------------------------------------------------

/// How far the colour search looks, in cells.
pub const SEARCH_RADIUS: i32 = 5;

/// The colour given to a filled cell with no occupied cell near it.
pub open spec fn fallback_color() -> [u8; 3] {
    [128u8, 128u8, 128u8]
}

/// `p` moved by `(dx, dy, dz)`.
pub open spec fn offset_pos(p: IVec3, dx: int, dy: int, dz: int) -> IVec3 {
    IVec3 { x: (p.x + dx) as i32, y: (p.y + dy) as i32, z: (p.z + dz) as i32 }
}

/// Whether every coordinate of `p` stays within `i32` when moved by up to the search radius.
pub open spec fn within_margin(p: IVec3) -> bool {
    &&& i32::MIN + 5 <= p.x <= i32::MAX - 5
    &&& i32::MIN + 5 <= p.y <= i32::MAX - 5
    &&& i32::MIN + 5 <= p.z <= i32::MAX - 5
}

/// The colour search from offset `(dx, dy, dz)` on shell radius `r` onward: shells of growing
/// radius, each visited with `dz` outermost and `dx` innermost, each offset running from
/// `-r` to `r`. The first cell that `occ` marks gives its colour by `col`.
pub open spec fn search_from(
    occ: spec_fn(IVec3) -> bool,
    col: spec_fn(IVec3) -> [u8; 3],
    p: IVec3,
    r: int,
    dz: int,
    dy: int,
    dx: int,
) -> Option<[u8; 3]>
    decreases 6 - r, r + 1 - dz, r + 1 - dy, r + 1 - dx,
{
    if r > 5 {
        None
    } else if dz > r {
        search_from(occ, col, p, r + 1, -(r + 1), -(r + 1), -(r + 1))
    } else if dy > r {
        search_from(occ, col, p, r, dz + 1, -r, -r)
    } else if dx > r {
        search_from(occ, col, p, r, dz, dy + 1, -r)
    } else if occ(offset_pos(p, dx, dy, dz)) {
        Some(col(offset_pos(p, dx, dy, dz)))
    } else {
        search_from(occ, col, p, r, dz, dy, dx + 1)
    }
}

/// The colour of the nearest marked cell around `p` in search order, or the fallback colour.
pub open spec fn nearby_color(
    occ: spec_fn(IVec3) -> bool,
    col: spec_fn(IVec3) -> [u8; 3],
    p: IVec3,
) -> [u8; 3] {
    match search_from(occ, col, p, 1, -1, -1, -1) {
        Some(c) => c,
        None => fallback_color(),
    }
}

/// Occupancy of a grid, as a predicate on positions.
pub open spec fn occupancy(g: VoxelGrid) -> spec_fn(IVec3) -> bool {
    |q: IVec3| g.occupied(q)
}

/// The colour stored in each cell of a grid (black where no cell is stored).
pub open spec fn colors(g: VoxelGrid) -> spec_fn(IVec3) -> [u8; 3] {
    |q: IVec3|
        match g.cell(q) {
            Some(v) => v.color,
            None => [0u8, 0u8, 0u8],
        }
}

/// The search gives the same answer for two markings that agree everywhere and two colourings
/// that agree on the marked cells.
pub proof fn lemma_search_congruent(
    o1: spec_fn(IVec3) -> bool,
    c1: spec_fn(IVec3) -> [u8; 3],
    o2: spec_fn(IVec3) -> bool,
    c2: spec_fn(IVec3) -> [u8; 3],
    p: IVec3,
    r: int,
    dz: int,
    dy: int,
    dx: int,
)
    requires
        forall|q: IVec3| #[trigger] o1(q) == o2(q),
        forall|q: IVec3| o1(q) ==> #[trigger] c1(q) == c2(q),
    ensures
        search_from(o1, c1, p, r, dz, dy, dx) == search_from(o2, c2, p, r, dz, dy, dx),
    decreases 6 - r, r + 1 - dz, r + 1 - dy, r + 1 - dx,
{
    if r > 5 {
    } else if dz > r {
        lemma_search_congruent(o1, c1, o2, c2, p, r + 1, -(r + 1), -(r + 1), -(r + 1));
    } else if dy > r {
        lemma_search_congruent(o1, c1, o2, c2, p, r, dz + 1, -r, -r);
    } else if dx > r {
        lemma_search_congruent(o1, c1, o2, c2, p, r, dz, dy + 1, -r);
    } else {
        let q = offset_pos(p, dx, dy, dz);
        assert(o1(q) == o2(q));
        if !o1(q) {
            lemma_search_congruent(o1, c1, o2, c2, p, r, dz, dy, dx + 1);
        }
    }
}

/// The colour of the nearest occupied cell around `pos`: shells of radius 1 to 5 are searched
/// in turn, and the grey fallback is returned when none holds an occupied cell.
pub fn find_nearby_color(grid: &VoxelGrid, pos: IVec3) -> (r: [u8; 3])
    requires
        grid.wf(),
        within_margin(pos),
    ensures
        r == nearby_color(occupancy(*grid), colors(*grid), pos),
{
    let ghost occ = occupancy(*grid);
    let ghost col = colors(*grid);
    let ghost total = search_from(occ, col, pos, 1, -1, -1, -1);
    let mut r: i32 = 1;
    while r <= SEARCH_RADIUS
        invariant
            grid.wf(),
            within_margin(pos),
            occ == occupancy(*grid),
            col == colors(*grid),
            total == search_from(occ, col, pos, 1, -1, -1, -1),
            1 <= r <= 6,
            total == search_from(occ, col, pos, r as int, -r as int, -r as int, -r as int),
        decreases 6 - r,
    {
        let mut dz: i32 = -r;
        while dz <= r
            invariant
                grid.wf(),
                within_margin(pos),
                occ == occupancy(*grid),
                col == colors(*grid),
                total == search_from(occ, col, pos, 1, -1, -1, -1),
                1 <= r <= 5,
                -r <= dz <= r + 1,
                total == search_from(occ, col, pos, r as int, dz as int, -r as int, -r as int),
            decreases r + 1 - dz,
        {
            let mut dy: i32 = -r;
            while dy <= r
                invariant
                    grid.wf(),
                    within_margin(pos),
                    occ == occupancy(*grid),
                    col == colors(*grid),
                    total == search_from(occ, col, pos, 1, -1, -1, -1),
                    1 <= r <= 5,
                    -r <= dz <= r,
                    -r <= dy <= r + 1,
                    total == search_from(occ, col, pos, r as int, dz as int, dy as int, -r as int),
                decreases r + 1 - dy,
            {
                let mut dx: i32 = -r;
                while dx <= r
                    invariant
                        grid.wf(),
                        within_margin(pos),
                        occ == occupancy(*grid),
                        col == colors(*grid),
                        total == search_from(occ, col, pos, 1, -1, -1, -1),
                        1 <= r <= 5,
                        -r <= dz <= r,
                        -r <= dy <= r,
                        -r <= dx <= r + 1,
                        total == search_from(
                            occ,
                            col,
                            pos,
                            r as int,
                            dz as int,
                            dy as int,
                            dx as int,
                        ),
                    decreases r + 1 - dx,
                {
                    let q = IVec3::new(pos.x + dx, pos.y + dy, pos.z + dz);
                    assert(q == offset_pos(pos, dx as int, dy as int, dz as int));
                    match grid.get_voxel(q) {
                        Some(v) => {
                            if v.occupied {
                                assert(occ(q));
                                assert(col(q) == v.color);
                                assert(search_from(
                                    occ,
                                    col,
                                    pos,
                                    r as int,
                                    dz as int,
                                    dy as int,
                                    dx as int,
                                ) == Some(v.color));
                                return v.color;
                            }
                        },
                        None => {},
                    }
                    assert(!occ(q));
                    dx = dx + 1;
                }
                dy = dy + 1;
            }
            dz = dz + 1;
        }
        r = r + 1;
    }
    [128u8, 128u8, 128u8]
}

// ---------------------------------------------------------------------------
// Filling the inside of a closed shell
// ---------------------------------------------------------------------------

/// The position with the given coordinates.
pub open spec fn at(x: int, y: int, z: int) -> IVec3 {
    IVec3 { x: x as i32, y: y as i32, z: z as i32 }
}

/// The least coordinate on `axis` of the occupied cells (`i32::MAX` when there are none).
pub open spec fn box_lo(g: VoxelGrid, axis: int) -> int {
    min_on_axis(g.occupied_list(), axis)
}

/// The greatest coordinate on `axis` of the occupied cells (`i32::MIN` when there are none).
pub open spec fn box_hi(g: VoxelGrid, axis: int) -> int {
    max_on_axis(g.occupied_list(), axis)
}

/// Whether `p` lies in the bounding box of the occupied cells.
pub open spec fn in_box(g: VoxelGrid, p: IVec3) -> bool {
    &&& box_lo(g, 0) <= p.x <= box_hi(g, 0)
    &&& box_lo(g, 1) <= p.y <= box_hi(g, 1)
    &&& box_lo(g, 2) <= p.z <= box_hi(g, 2)
}

/// Whether a run of occupied cells begins at `x` in row `(y, z)`, the row starting at `lo`.
pub open spec fn run_starts(g: VoxelGrid, y: int, z: int, lo: int, x: int) -> bool {
    g.occupied(at(x, y, z)) && (x == lo || !g.occupied(at(x - 1, y, z)))
}

/// Whether the scan of row `(y, z)` from `lo` is inside the shape after cell `x`: an odd
/// number of runs of occupied cells begin in `lo..=x`.
pub open spec fn inside_after(g: VoxelGrid, y: int, z: int, lo: int, x: int) -> bool
    decreases x - lo,
{
    if x < lo {
        false
    } else {
        let prev = if x == lo {
            false
        } else {
            inside_after(g, y, z, lo, x - 1)
        };
        if run_starts(g, y, z, lo, x) {
            !prev
        } else {
            prev
        }
    }
}

/// The cells that filling adds: empty cells of the bounding box that the row scan finds
/// inside the shape.
pub open spec fn to_fill(g: VoxelGrid, p: IVec3) -> bool {
    &&& in_box(g, p)
    &&& !g.occupied(p)
    &&& inside_after(g, p.y as int, p.z as int, box_lo(g, 0), p.x as int)
}

/// Whether `q` comes before `(x, y, z)` in the fill order: by `y`, then `z`, then `x`.
pub open spec fn scan_before(q: IVec3, x: int, y: int, z: int) -> bool {
    q.y < y || (q.y == y && (q.z < z || (q.z == z && q.x < x)))
}

/// Whether `q` is a cell to fill that the scan has passed before reaching `(x, y, z)`.
pub open spec fn filled_before(g: VoxelGrid, q: IVec3, x: int, y: int, z: int) -> bool {
    to_fill(g, q) && scan_before(q, x, y, z)
}

/// The cells that are occupied when the scan reaches `p`.
pub open spec fn seen_at(g: VoxelGrid, p: IVec3) -> spec_fn(IVec3) -> bool {
    |q: IVec3| g.occupied(q) || filled_before(g, q, p.x as int, p.y as int, p.z as int)
}

/// The colour that filling gives `p`: the search over the cells occupied when the scan
/// reaches `p`, with the colours they hold in `g1`.
pub open spec fn fill_color(g0: VoxelGrid, g1: VoxelGrid, p: IVec3) -> [u8; 3] {
    nearby_color(seen_at(g0, p), colors(g1), p)
}

/// Every occupied cell lies far enough from the `i32` limits for the colour search.
pub open spec fn margin_ok(g: VoxelGrid) -> bool {
    forall|p: IVec3| #[trigger] g.occupied(p) ==> within_margin(p)
}

/// The occupied cells of `g0` are kept in `s`.
pub open spec fn keeps_occupied(g0: VoxelGrid, s: VoxelGrid) -> bool {
    forall|q: IVec3| #[trigger] g0.occupied(q) ==> s.cell(q) == g0.cell(q)
}

/// Every cell occupied in `s` was occupied in `g0` or filled before `(x, y, z)`.
pub open spec fn only_filled(g0: VoxelGrid, s: VoxelGrid, x: int, y: int, z: int) -> bool {
    forall|q: IVec3| #[trigger] s.occupied(q) ==> g0.occupied(q) || filled_before(g0, q, x, y, z)
}

/// Cells neither occupied in `g0` nor filled before `(x, y, z)` are as in `g0`, or are
/// empty cells of a chunk that `s` added.
pub open spec fn rest_unchanged(g0: VoxelGrid, s: VoxelGrid, x: int, y: int, z: int) -> bool {
    forall|q: IVec3|
        !g0.occupied(q) && !filled_before(g0, q, x, y, z) ==> #[trigger] s.cell(q) == g0.cell(q)
            || (g0.cell(q) is None && s.cell(q) == Some(empty_voxel()))
}

/// Every cell filled before `(x, y, z)` holds its fill colour.
pub open spec fn filled_colored(g0: VoxelGrid, s: VoxelGrid, x: int, y: int, z: int) -> bool {
    forall|q: IVec3|
        filled_before(g0, q, x, y, z) ==> #[trigger] s.cell(q) == Some(
            Voxel { occupied: true, color: fill_color(g0, s, q), block_id: 0 },
        )
}

/// Filling `p` keeps every earlier fill colour and gives `p` its own.
proof fn lemma_fill_step(g0: VoxelGrid, s: VoxelGrid, s2: VoxelGrid, p: IVec3, color: [u8; 3])
    requires
        to_fill(g0, p),
        keeps_occupied(g0, s),
        only_filled(g0, s, p.x as int, p.y as int, p.z as int),
        filled_colored(g0, s, p.x as int, p.y as int, p.z as int),
        color == nearby_color(occupancy(s), colors(s), p),
        s2.cell(p) == Some(Voxel { occupied: true, color: color, block_id: 0 }),
        forall|q: IVec3| q != p && #[trigger] s.cell(q) is Some ==> s2.cell(q) == s.cell(q),
    ensures
        filled_colored(g0, s2, p.x + 1, p.y as int, p.z as int),
{
    let (x, y, z) = (p.x as int, p.y as int, p.z as int);
    // The cells the scan has seen are exactly the occupied cells of `s`.
    assert forall|q: IVec3| #[trigger] occupancy(s)(q) == seen_at(g0, p)(q) by {
        if g0.occupied(q) {
            assert(s.cell(q) == g0.cell(q));
        }
        if filled_before(g0, q, x, y, z) {
            assert(s.cell(q) == Some(
                Voxel { occupied: true, color: fill_color(g0, s, q), block_id: 0 },
            ));
        }
    }
    // Their colours are the same in `s` and `s2`.
    assert forall|q: IVec3| occupancy(s)(q) implies #[trigger] colors(s)(q) == colors(s2)(q) by {
        assert(s.cell(q) is Some);
        if q == p {
            assert(!g0.occupied(p));
            assert(!filled_before(g0, p, x, y, z));
        }
    }
    lemma_search_congruent(occupancy(s), colors(s), seen_at(g0, p), colors(s2), p, 1, -1, -1, -1);
    assert(color == fill_color(g0, s2, p));
    assert forall|q: IVec3| filled_before(g0, q, x + 1, y, z) implies #[trigger] s2.cell(q) == Some(
        Voxel { occupied: true, color: fill_color(g0, s2, q), block_id: 0 },
    ) by {
        if q != p {
            assert(filled_before(g0, q, x, y, z));
            assert(s.cell(q) == Some(
                Voxel { occupied: true, color: fill_color(g0, s, q), block_id: 0 },
            ));
            assert forall|w: IVec3| #[trigger] seen_at(g0, q)(w) implies colors(s)(w) == colors(
                s2,
            )(w) by {
                if g0.occupied(w) {
                    assert(s.cell(w) == g0.cell(w));
                } else {
                    assert(filled_before(g0, w, x, y, z));
                    assert(s.cell(w) == Some(
                        Voxel { occupied: true, color: fill_color(g0, s, w), block_id: 0 },
                    ));
                }
            }
            lemma_search_congruent(
                seen_at(g0, q),
                colors(s),
                seen_at(g0, q),
                colors(s2),
                q,
                1,
                -1,
                -1,
                -1,
            );
        }
    }
}

/// `g1` is `g0` with its inside filled: the occupied cells of `g0` are kept, the cells to
/// fill are the only ones added, every other cell is as it was (or an empty cell of an added
/// chunk), and each filled cell is occupied with
/// its fill colour and block 0.
pub open spec fn filled_from(g0: VoxelGrid, g1: VoxelGrid) -> bool {
    &&& keeps_occupied(g0, g1)
    &&& forall|p: IVec3| #[trigger] g1.occupied(p) ==> g0.occupied(p) || to_fill(g0, p)
    &&& forall|p: IVec3|
        !g0.occupied(p) && !to_fill(g0, p) ==> #[trigger] g1.cell(p) == g0.cell(p) || (g0.cell(
            p,
        ) is None && g1.cell(p) == Some(empty_voxel()))
    &&& forall|p: IVec3|
        to_fill(g0, p) ==> #[trigger] g1.cell(p) == Some(
            Voxel { occupied: true, color: fill_color(g0, g1, p), block_id: 0 },
        )
}

/// Fills the inside of closed shapes. Each row of the bounding box along `x` is scanned from
/// its low end; every start of a run of occupied cells toggles between outside and inside,
/// and each empty cell met inside is filled with the colour of the nearest occupied cell.
/// Rows are taken by `y`, then `z`, so a fill can take its colour from an earlier fill.
pub fn fill_solid(grid: &mut VoxelGrid)
    requires
        old(grid).wf(),
        margin_ok(*old(grid)),
    ensures
        final(grid).wf(),
        filled_from(*old(grid), *final(grid)),
        final(grid).chunks.len() >= old(grid).chunks.len(),
{
    let ghost g0 = *grid;
    let (lo, hi) = match grid.bounds_voxel() {
        Some(b) => b,
        None => {
            return ;
        },
    };
    proof {
        let list = g0.occupied_list();
        g0.lemma_occupied_list_exact();
        lemma_min_on_axis(list, 0);
        lemma_min_on_axis(list, 1);
        lemma_min_on_axis(list, 2);
        lemma_max_on_axis(list, 0);
        lemma_max_on_axis(list, 1);
        lemma_max_on_axis(list, 2);
        if list.len() > 0 {
            assert forall|k: int| 0 <= k < list.len() implies within_margin(
                (#[trigger] list[k]).0,
            ) by {
                assert(g0.occupied(list[k].0));
            }
        }
    }
    let mut gy: i64 = lo.y as i64;
    while gy <= hi.y as i64
        invariant
            grid.wf(),
            g0 == *old(grid),
            lo.x == box_lo(g0, 0),
            lo.y == box_lo(g0, 1),
            lo.z == box_lo(g0, 2),
            hi.x == box_hi(g0, 0),
            hi.y == box_hi(g0, 1),
            hi.z == box_hi(g0, 2),
            lo.y <= hi.y ==> within_margin(lo) && within_margin(hi),
            lo.y <= gy,
            keeps_occupied(g0, *grid),
            only_filled(g0, *grid, lo.x as int, gy as int, lo.z as int),
            rest_unchanged(g0, *grid, lo.x as int, gy as int, lo.z as int),
            filled_colored(g0, *grid, lo.x as int, gy as int, lo.z as int),
            grid.chunks.len() >= g0.chunks.len(),
        decreases hi.y + 1 - gy,
    {
        let mut gz: i64 = lo.z as i64;
        while gz <= hi.z as i64
            invariant
                grid.wf(),
                g0 == *old(grid),
                lo.x == box_lo(g0, 0),
                lo.y == box_lo(g0, 1),
                lo.z == box_lo(g0, 2),
                hi.x == box_hi(g0, 0),
                hi.y == box_hi(g0, 1),
                hi.z == box_hi(g0, 2),
                within_margin(lo),
                within_margin(hi),
                lo.y <= gy <= hi.y,
                lo.z <= gz,
                keeps_occupied(g0, *grid),
                only_filled(g0, *grid, lo.x as int, gy as int, gz as int),
                rest_unchanged(g0, *grid, lo.x as int, gy as int, gz as int),
                filled_colored(g0, *grid, lo.x as int, gy as int, gz as int),
                grid.chunks.len() >= g0.chunks.len(),
            decreases hi.z + 1 - gz,
        {
            let mut inside = false;
            let mut last_surface = false;
            let mut gx: i64 = lo.x as i64;
            while gx <= hi.x as i64
                invariant
                    grid.wf(),
                    g0 == *old(grid),
                    lo.x == box_lo(g0, 0),
                    lo.y == box_lo(g0, 1),
                    lo.z == box_lo(g0, 2),
                    hi.x == box_hi(g0, 0),
                    hi.y == box_hi(g0, 1),
                    hi.z == box_hi(g0, 2),
                    within_margin(lo),
                    within_margin(hi),
                    lo.y <= gy <= hi.y,
                    lo.z <= gz <= hi.z,
                    lo.x <= gx,
                    inside == inside_after(g0, gy as int, gz as int, lo.x as int, gx - 1),
                    last_surface == (gx > lo.x && g0.occupied(at(gx - 1, gy as int, gz as int))),
                    keeps_occupied(g0, *grid),
                    only_filled(g0, *grid, gx as int, gy as int, gz as int),
                    rest_unchanged(g0, *grid, gx as int, gy as int, gz as int),
                    filled_colored(g0, *grid, gx as int, gy as int, gz as int),
                    grid.chunks.len() >= g0.chunks.len(),
                decreases hi.x + 1 - gx,
            {
                let p = IVec3::new(gx as i32, gy as i32, gz as i32);
                assert(p == at(gx as int, gy as int, gz as int));
                let occupied = grid.is_occupied(p);
                proof {
                    if g0.occupied(p) {
                        assert(grid.cell(p) == g0.cell(p));
                    }
                    assert(occupied == g0.occupied(p));
                }
                if occupied && !last_surface {
                    inside = !inside;
                }
                assert(inside == inside_after(g0, gy as int, gz as int, lo.x as int, gx as int));
                if inside && !occupied {
                    assert(to_fill(g0, p));
                    let color = find_nearby_color(grid, p);
                    let ghost s = *grid;
                    grid.set_voxel(p, Voxel::new(color));
                    proof {
                        assert(!s.occupied(p));
                        lemma_fill_step(g0, s, *grid, p, color);
                        assert forall|q: IVec3| #[trigger]
                            grid.occupied(q) implies g0.occupied(q) || filled_before(
                            g0,
                            q,
                            gx + 1,
                            gy as int,
                            gz as int,
                        ) by {
                            if q != p {
                                assert(s.occupied(q));
                            }
                        }
                    }
                } else {
                    proof {
                        assert(!to_fill(g0, p));
                    }
                }
                last_surface = occupied;
                gx = gx + 1;
            }
            proof {
                assert forall|q: IVec3|
                    #![trigger filled_before(g0, q, gx as int, gy as int, gz as int)]
                    filled_before(g0, q, gx as int, gy as int, gz as int) == filled_before(
                        g0,
                        q,
                        lo.x as int,
                        gy as int,
                        gz + 1,
                    ) by {}
            }
            gz = gz + 1;
        }
        proof {
            assert forall|q: IVec3|
                #![trigger filled_before(g0, q, lo.x as int, gy as int, gz as int)]
                filled_before(g0, q, lo.x as int, gy as int, gz as int) == filled_before(
                    g0,
                    q,
                    lo.x as int,
                    gy + 1,
                    lo.z as int,
                ) by {}
        }
        gy = gy + 1;
    }
    proof {
        assert forall|q: IVec3|
            #![trigger filled_before(g0, q, lo.x as int, gy as int, lo.z as int)]
            filled_before(g0, q, lo.x as int, gy as int, lo.z as int) == to_fill(g0, q) by {}
    }
}

// ---------------------------------------------------------------------------
// Merging the cells of rasterized triangles
// ---------------------------------------------------------------------------

/// The lists one after the other.
pub open spec fn flatten_lists(s: Seq<Vec<(IVec3, Voxel)>>) -> Seq<(IVec3, Voxel)>
    decreases s.len(),
{
    if s.len() == 0 {
        Seq::empty()
    } else {
        flatten_lists(s.drop_last()) + s.last()@
    }
}

/// The cell at `p` after the entries of `s` are written in order over `init`, a write being
/// skipped where the cell is already occupied: the first occupied write wins.
pub open spec fn merged_cell(init: Option<Voxel>, s: Seq<(IVec3, Voxel)>, p: IVec3) -> Option<
    Voxel,
>
    decreases s.len(),
{
    if s.len() == 0 {
        init
    } else {
        let prev = merged_cell(init, s.drop_last(), p);
        if s.last().0 == p && !(prev matches Some(c) && c.occupied) {
            Some(s.last().1)
        } else {
            prev
        }
    }
}

/// `g` holds, at every position, what writing `s` over `g0` leaves there; a position that
/// nothing was written to may also hold an empty cell of a chunk that a write added.
pub open spec fn merged_into(g0: VoxelGrid, s: Seq<(IVec3, Voxel)>, g: VoxelGrid) -> bool {
    forall|p: IVec3|
        #[trigger] g.cell(p) == merged_cell(g0.cell(p), s, p) || (merged_cell(g0.cell(p), s, p) is None
            && g.cell(p) == Some(empty_voxel()))
}

/// Whether an occupied cell of `s` is written to `p`.
pub open spec fn writes_occupied(s: Seq<(IVec3, Voxel)>, p: IVec3) -> bool {
    exists|k: int| 0 <= k < s.len() && (#[trigger] s[k]).0 == p && s[k].1.occupied
}

/// Writes the cells of every list into `grid`, list by list and in order within a list;
/// a cell already occupied keeps what it holds.
pub fn merge_rasterized(grid: &mut VoxelGrid, lists: &Vec<Vec<(IVec3, Voxel)>>)
    requires
        old(grid).wf(),
    ensures
        final(grid).wf(),
        keeps_occupied(*old(grid), *final(grid)),
        forall|p: IVec3| #[trigger]
            final(grid).occupied(p) ==> old(grid).occupied(p) || writes_occupied(
                flatten_lists(lists@),
                p,
            ),
        final(grid).chunks.len() >= old(grid).chunks.len(),
        merged_into(
            *old(grid),
            flatten_lists(lists@),
            *final(grid),
        ),
{
    let ghost g0 = *grid;
    let mut i: usize = 0;
    while i < lists.len()
        invariant
            grid.wf(),
            g0 == *old(grid),
            i <= lists.len(),
            keeps_occupied(g0, *grid),
            forall|p: IVec3| #[trigger]
                grid.occupied(p) ==> g0.occupied(p) || writes_occupied(
                    flatten_lists(lists@.take(i as int)),
                    p,
                ),
            grid.chunks.len() >= g0.chunks.len(),
            merged_into(g0, flatten_lists(lists@.take(i as int)), *grid),
        decreases lists.len() - i,
    {
        let list = &lists[i];
        let ghost done = flatten_lists(lists@.take(i as int));
        let mut j: usize = 0;
        while j < list.len()
            invariant
                grid.wf(),
                g0 == *old(grid),
                i < lists.len(),
                list@ == lists@[i as int]@,
                done == flatten_lists(lists@.take(i as int)),
                j <= list.len(),
                keeps_occupied(g0, *grid),
                forall|p: IVec3| #[trigger]
                    grid.occupied(p) ==> g0.occupied(p) || writes_occupied(
                        done + list@.take(j as int),
                        p,
                    ),
                grid.chunks.len() >= g0.chunks.len(),
                merged_into(g0, done + list@.take(j as int), *grid),
            decreases list.len() - j,
        {
            let e = list[j];
            let q = e.0;
            let v = e.1;
            let ghost before = done + list@.take(j as int);
            let ghost after = done + list@.take(j + 1);
            assert(after.drop_last() =~= before);
            assert(after.last() == e);
            let skip = match grid.get_voxel(q) {
                Some(c) => c.occupied,
                None => false,
            };
            let ghost s = *grid;
            if !skip {
                grid.set_voxel(q, v);
                proof {
                    {
                        assert forall|p: IVec3| #[trigger]
                            grid.cell(p) == merged_cell(g0.cell(p), after, p) || (merged_cell(
                                g0.cell(p),
                                after,
                                p,
                            ) is None && grid.cell(p) == Some(empty_voxel())) by {
                            assert(s.cell(p) == merged_cell(g0.cell(p), before, p) || (
                            merged_cell(g0.cell(p), before, p) is None && s.cell(p) == Some(
                                empty_voxel(),
                            )));
                        }
                    }
                    assert forall|p: IVec3| #[trigger]
                        g0.occupied(p) implies grid.cell(p) == g0.cell(p) by {
                        assert(s.cell(p) == g0.cell(p));
                        if p == q {
                            assert(s.occupied(q));
                        }
                    }
                    assert forall|p: IVec3| #[trigger]
                        grid.occupied(p) implies g0.occupied(p) || writes_occupied(after, p) by {
                        if p == q {
                            assert(after[before.len() as int] == e);
                        } else {
                            assert(s.occupied(p));
                            if writes_occupied(before, p) {
                                let k = choose|k: int|
                                    0 <= k < before.len() && (#[trigger] before[k]).0 == p
                                        && before[k].1.occupied;
                                assert(after[k] == before[k]);
                            }
                        }
                    }
                }
            } else {
                proof {
                    {
                        assert forall|p: IVec3| #[trigger]
                            grid.cell(p) == merged_cell(g0.cell(p), after, p) || (merged_cell(
                                g0.cell(p),
                                after,
                                p,
                            ) is None && grid.cell(p) == Some(empty_voxel())) by {
                            assert(s.cell(p) == merged_cell(g0.cell(p), before, p) || (
                            merged_cell(g0.cell(p), before, p) is None && s.cell(p) == Some(
                                empty_voxel(),
                            )));
                        }
                    }
                    assert forall|p: IVec3| #[trigger]
                        grid.occupied(p) implies g0.occupied(p) || writes_occupied(after, p) by {
                        if writes_occupied(before, p) {
                            let k = choose|k: int|
                                0 <= k < before.len() && (#[trigger] before[k]).0 == p
                                    && before[k].1.occupied;
                            assert(after[k] == before[k]);
                        }
                    }
                }
            }
            j = j + 1;
        }
        proof {
            assert(lists@.take(i + 1).drop_last() =~= lists@.take(i as int));
            assert(list@.take(j as int) =~= list@);
        }
        i = i + 1;
    }
    proof {
        assert(lists@.take(i as int) =~= lists@);
    }
}

/// An occupied cell is never overwritten.
proof fn lemma_occupied_stays(init: Option<Voxel>, s: Seq<(IVec3, Voxel)>, p: IVec3)
    requires
        init matches Some(c) && c.occupied,
    ensures
        merged_cell(init, s, p) == init,
    decreases s.len(),
{
    if s.len() > 0 {
        lemma_occupied_stays(init, s.drop_last(), p);
    }
}

/// With no occupied write to `p`, an unoccupied start stays unoccupied.
proof fn lemma_no_occupied_write(init: Option<Voxel>, s: Seq<(IVec3, Voxel)>, p: IVec3)
    requires
        !(init matches Some(c) && c.occupied),
        forall|i: int| 0 <= i < s.len() && (#[trigger] s[i]).0 == p ==> !s[i].1.occupied,
    ensures
        !(merged_cell(init, s, p) matches Some(c) && c.occupied),
    decreases s.len(),
{
    if s.len() > 0 {
        assert forall|i: int|
            0 <= i < s.drop_last().len() && (#[trigger] s.drop_last()[i]).0 == p implies !s.drop_last()[i].1.occupied by {
            assert(s.drop_last()[i] == s[i]);
        }
        lemma_no_occupied_write(init, s.drop_last(), p);
    }
}

/// First write wins: a cell that starts unoccupied ends up holding the first occupied voxel
/// written to it, and a cell that starts occupied keeps what it holds.
pub proof fn lemma_first_write_wins(init: Option<Voxel>, s: Seq<(IVec3, Voxel)>, p: IVec3, k: int)
    requires
        0 <= k < s.len(),
        s[k].0 == p,
        s[k].1.occupied,
        forall|i: int| 0 <= i < k && (#[trigger] s[i]).0 == p ==> !s[i].1.occupied,
    ensures
        init matches Some(c) && c.occupied ==> merged_cell(init, s, p) == init,
        !(init matches Some(c) && c.occupied) ==> merged_cell(init, s, p) == Some(s[k].1),
    decreases s.len(),
{
    if init matches Some(c) && c.occupied {
        lemma_occupied_stays(init, s, p);
    } else if k == s.len() - 1 {
        let t = s.drop_last();
        assert forall|i: int| 0 <= i < t.len() && (#[trigger] t[i]).0 == p implies !t[i].1.occupied by {
            assert(t[i] == s[i]);
        }
        lemma_no_occupied_write(init, t, p);
    } else {
        let t = s.drop_last();
        assert(t[k] == s[k]);
        assert forall|i: int| 0 <= i < k && (#[trigger] t[i]).0 == p implies !t[i].1.occupied by {
            assert(t[i] == s[i]);
        }
        lemma_first_write_wins(init, t, p, k);
    }
}

// ---------------------------------------------------------------------------
// From rasterized cells to a grid
// ---------------------------------------------------------------------------

/// `g` holds what writing `s` into an empty grid leaves: see `merged_into`.
pub open spec fn built_from(s: Seq<(IVec3, Voxel)>, g: VoxelGrid) -> bool {
    forall|p: IVec3|
        #[trigger] g.cell(p) == merged_cell(None, s, p) || (merged_cell(None, s, p) is None
            && g.cell(p) == Some(empty_voxel()))
}

/// Every occupied cell written by `s` lies within the search margin.
pub open spec fn entries_in_margin(s: Seq<(IVec3, Voxel)>) -> bool {
    forall|k: int| 0 <= k < s.len() && (#[trigger] s[k]).1.occupied ==> within_margin(s[k].0)
}

/// The grid for a model whose triangles touched the cells in `lists`: the lists merged
/// (first occupied write wins), then, in solid mode, the inside filled.
pub fn voxelize_cells(mode: VoxelizeMode, lists: &Vec<Vec<(IVec3, Voxel)>>) -> (r: VoxelGrid)
    requires
        mode == VoxelizeMode::Solid ==> entries_in_margin(flatten_lists(lists@)),
    ensures
        r.wf(),
        mode != VoxelizeMode::Solid ==> forall|p: IVec3| #[trigger]
            r.occupied(p) ==> writes_occupied(flatten_lists(lists@), p),
        mode != VoxelizeMode::Solid ==> built_from(
            flatten_lists(lists@),
            r,
        ),
        mode == VoxelizeMode::Solid ==> exists|m: VoxelGrid|
            {
                &&& m.wf()
                &&& m.chunks.len() <= r.chunks.len()
                &&& forall|p: IVec3| #[trigger]
                    m.occupied(p) ==> writes_occupied(flatten_lists(lists@), p)
                &&& built_from(flatten_lists(lists@), m)
                &&& filled_from(m, r)
            },
{
    let mut grid = VoxelGrid::new();
    let ghost g0 = grid;
    merge_rasterized(&mut grid, lists);
    proof {
        assert forall|p: IVec3| #[trigger] g0.cell(p) == None::<Voxel> by {}
        {
            assert forall|p: IVec3| #[trigger]
                grid.cell(p) == merged_cell(None, flatten_lists(lists@), p) || (merged_cell(
                    None,
                    flatten_lists(lists@),
                    p,
                ) is None && grid.cell(p) == Some(empty_voxel())) by {
                assert(g0.cell(p) == None::<Voxel>);
            }
        }
        assert forall|p: IVec3| #[trigger]
            grid.occupied(p) implies writes_occupied(flatten_lists(lists@), p) by {
            assert(!g0.occupied(p));
        }
    }
    match mode {
        VoxelizeMode::Solid => {
            let ghost m = grid;
            proof {
                assert forall|p: IVec3| #[trigger] m.occupied(p) implies within_margin(p) by {
                    let s = flatten_lists(lists@);
                    let k = choose|k: int| 0 <= k < s.len() && (#[trigger] s[k]).0 == p && s[k].1.occupied;
                }
            }
            fill_solid(&mut grid);
            assert(m.wf() && m.chunks.len() <= grid.chunks.len());
        },
        _ => {},
    }
    grid
}

// ---------------------------------------------------------------------------
// The surface of a model, triangle by triangle
// ---------------------------------------------------------------------------

/// Where list `t` starts in the flattened lists.
pub open spec fn flat_offset(lists: Seq<Vec<(IVec3, Voxel)>>, t: int) -> int {
    flatten_lists(lists.take(t)).len() as int
}

/// Whether entry `j` of list `t` is an occupied voxel written to `p`.
pub open spec fn writes_at(lists: Seq<Vec<(IVec3, Voxel)>>, t: int, j: int, p: IVec3) -> bool {
    &&& 0 <= t < lists.len()
    &&& 0 <= j < lists[t]@.len()
    &&& lists[t]@[j].0 == p
    &&& lists[t]@[j].1.occupied
}

/// List `t` follows all lists before it.
proof fn lemma_flat_offset_step(lists: Seq<Vec<(IVec3, Voxel)>>, t: int)
    requires
        0 <= t < lists.len(),
    ensures
        flatten_lists(lists.take(t + 1)) == flatten_lists(lists.take(t)) + lists[t]@,
        flat_offset(lists, t + 1) == flat_offset(lists, t) + lists[t]@.len(),
{
    assert(lists.take(t + 1).drop_last() =~= lists.take(t));
}

/// Offsets grow with the list number.
proof fn lemma_flat_offset_mono(lists: Seq<Vec<(IVec3, Voxel)>>, t1: int, t2: int)
    requires
        0 <= t1 < t2 <= lists.len(),
    ensures
        flat_offset(lists, t1) + lists[t1]@.len() <= flat_offset(lists, t2),
    decreases t2 - t1,
{
    lemma_flat_offset_step(lists, t1);
    if t1 + 1 < t2 {
        lemma_flat_offset_mono(lists, t1 + 1, t2);
    }
}

/// Entry `j` of list `t` sits at `flat_offset(t) + j` of the flattened lists.
proof fn lemma_flat_entry(lists: Seq<Vec<(IVec3, Voxel)>>, t: int, j: int)
    requires
        0 <= t < lists.len(),
        0 <= j < lists[t]@.len(),
    ensures
        flat_offset(lists, t) + j < flatten_lists(lists).len(),
        flatten_lists(lists)[flat_offset(lists, t) + j] == lists[t]@[j],
    decreases lists.len(),
{
    let n = lists.len() as int;
    let init = lists.drop_last();
    assert(lists.take(n - 1) =~= init);
    if t == n - 1 {
        assert(flatten_lists(lists) == flatten_lists(init) + lists[t]@);
    } else {
        lemma_flat_entry(init, t, j);
        assert(init.take(t) =~= lists.take(t));
        assert(init[t] == lists[t]);
        assert(flatten_lists(lists) == flatten_lists(init) + lists.last()@);
    }
}

/// Every position of the flattened lists is some entry of some list.
proof fn lemma_flat_source(lists: Seq<Vec<(IVec3, Voxel)>>, i: int) -> (tj: (int, int))
    requires
        0 <= i < flatten_lists(lists).len(),
    ensures
        0 <= tj.0 < lists.len(),
        0 <= tj.1 < lists[tj.0]@.len(),
        i == flat_offset(lists, tj.0) + tj.1,
    decreases lists.len(),
{
    let n = lists.len() as int;
    let init = lists.drop_last();
    assert(lists.take(n - 1) =~= init);
    assert(flatten_lists(lists) == flatten_lists(init) + lists.last()@);
    if i < flatten_lists(init).len() {
        let (t, j) = lemma_flat_source(init, i);
        assert(init.take(t) =~= lists.take(t));
        assert(init[t] == lists[t]);
        (t, j)
    } else {
        (n - 1, i - flatten_lists(init).len())
    }
}

/// The first position at or before `k` where `s` writes an occupied voxel to `p`.
proof fn lemma_earliest_write(s: Seq<(IVec3, Voxel)>, p: IVec3, k: int) -> (e: int)
    requires
        0 <= k < s.len(),
        s[k].0 == p,
        s[k].1.occupied,
    ensures
        0 <= e <= k,
        s[e].0 == p,
        s[e].1.occupied,
        forall|i: int| 0 <= i < e && (#[trigger] s[i]).0 == p ==> !s[i].1.occupied,
    decreases k,
{
    if exists|i: int| 0 <= i < k && (#[trigger] s[i]).0 == p && s[i].1.occupied {
        let i = choose|i: int| 0 <= i < k && (#[trigger] s[i]).0 == p && s[i].1.occupied;
        lemma_earliest_write(s, p, i)
    } else {
        k
    }
}

/// A surface grid, triangle by triangle: when `g` holds what the cell lists of the
/// triangles leave, written list by list (see `voxelize_cells`), a cell is occupied exactly
/// when some triangle writes an occupied voxel to it, and it then holds the voxel of the
/// lowest-numbered such triangle (of its earliest such entry within that list). The grid
/// does not depend on anything but the lists and their order.
pub proof fn lemma_surface_by_triangle(lists: Seq<Vec<(IVec3, Voxel)>>, g: VoxelGrid, p: IVec3)
    requires
        built_from(flatten_lists(lists), g),
    ensures
        g.occupied(p) <==> exists|t: int, j: int| #[trigger] writes_at(lists, t, j, p),
        forall|t: int, j: int|
            #[trigger] writes_at(lists, t, j, p) && (forall|t2: int, j2: int|
                (t2 < t || (t2 == t && j2 < j)) ==> !#[trigger] writes_at(lists, t2, j2, p))
                ==> g.cell(p) == Some(lists[t]@[j].1),
{
    let s = flatten_lists(lists);
    assert(g.cell(p) == merged_cell(None, s, p) || (merged_cell(None, s, p) is None && g.cell(p)
        == Some(empty_voxel())));
    // A write in some list is a write of the flattened lists, and the other way round.
    assert forall|t: int, j: int| #[trigger] writes_at(lists, t, j, p) && (forall|t2: int, j2: int|
        (t2 < t || (t2 == t && j2 < j)) ==> !#[trigger] writes_at(lists, t2, j2, p)) implies g.cell(p)
        == Some(lists[t]@[j].1) by {
        lemma_flat_entry(lists, t, j);
        let k = flat_offset(lists, t) + j;
        assert forall|i: int| 0 <= i < k && (#[trigger] s[i]).0 == p implies !s[i].1.occupied by {
            let (t2, j2) = lemma_flat_source(lists, i);
            lemma_flat_entry(lists, t2, j2);
            if t2 > t {
                lemma_flat_offset_mono(lists, t, t2);
            }
            if t2 < t {
                lemma_flat_offset_mono(lists, t2, t);
            }
            assert(t2 < t || (t2 == t && j2 < j));
            assert(!writes_at(lists, t2, j2, p));
        }
        lemma_first_write_wins(None, s, p, k);
    }
    if g.occupied(p) {
        if !writes_occupied(s, p) {
            lemma_no_occupied_write(None, s, p);
        }
        let k = choose|k: int| 0 <= k < s.len() && (#[trigger] s[k]).0 == p && s[k].1.occupied;
        let (t, j) = lemma_flat_source(lists, k);
        lemma_flat_entry(lists, t, j);
        assert(writes_at(lists, t, j, p));
    }
    if exists|t: int, j: int| #[trigger] writes_at(lists, t, j, p) {
        let (t, j) = choose|t: int, j: int| #[trigger] writes_at(lists, t, j, p);
        lemma_flat_entry(lists, t, j);
        let e = lemma_earliest_write(s, p, flat_offset(lists, t) + j);
        lemma_first_write_wins(None, s, p, e);
    }
}

} // verus!
