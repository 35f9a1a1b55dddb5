//! Sparse voxel storage: a grid made of cubic chunks of 32 x 32 x 32 cells.
use vstd::prelude::*;

use crate::geom::IVec3;

verus! {

pub const CHUNK_SIZE: i32 = 32;

pub const CHUNK_SIZE_U: usize = 32;

pub const CHUNK_VOL: usize = 32768;

/// One lattice cell.
#[derive(Clone, Copy, Debug)]
pub struct Voxel {
    pub occupied: bool,
    pub color: [u8; 3],
    /// Block id chosen for this cell; 0 means unmapped.
    pub block_id: u16,
}

/// The cell that a fresh chunk holds everywhere.
pub open spec fn empty_voxel() -> Voxel {
    Voxel { occupied: false, color: [0u8, 0u8, 0u8], block_id: 0 }
}

impl Voxel {
    pub fn new(color: [u8; 3]) -> (r: Voxel)
        ensures
            r == (Voxel { occupied: true, color: color, block_id: 0 }),
    {
        Voxel { occupied: true, color, block_id: 0 }
    }
}

impl Default for Voxel {
    fn default() -> (r: Voxel)
        ensures
            r == empty_voxel(),
    {
        Voxel { occupied: false, color: [0u8, 0u8, 0u8], block_id: 0 }
    }
}

/// Number of occupied cells in `s`.
pub open spec fn count_occupied(s: Seq<Voxel>) -> nat
    decreases s.len(),
{
    if s.len() == 0 {
        0
    } else {
        count_occupied(s.drop_last()) + (if s.last().occupied { 1nat } else { 0nat })
    }
}

/// Linear index of local coordinates inside a chunk.
pub open spec fn local_idx(lx: int, ly: int, lz: int) -> int {
    lx + 32 * ly + 1024 * lz
}

/// A dense block of `CHUNK_VOL` cells, indexed by `VoxelChunk::idx`.
pub struct VoxelChunk {
    pub voxels: Vec<Voxel>,
}

impl VoxelChunk {
    pub open spec fn wf(&self) -> bool {
        self.voxels.len() == CHUNK_VOL
    }

    pub fn new() -> (r: VoxelChunk)
        ensures
            r.wf(),
            forall|i: int| 0 <= i < CHUNK_VOL ==> #[trigger] r.voxels@[i] == empty_voxel(),
    {
        let d = Voxel::default();
        let mut voxels: Vec<Voxel> = Vec::new();
        let mut i: usize = 0;
        while i < CHUNK_VOL
            invariant
                i <= CHUNK_VOL,
                voxels.len() == i,
                d == empty_voxel(),
                forall|k: int| 0 <= k < i ==> #[trigger] voxels@[k] == empty_voxel(),
            decreases CHUNK_VOL - i,
        {
            voxels.push(d);
            i = i + 1;
        }
        VoxelChunk { voxels }
    }

    pub fn idx(lx: usize, ly: usize, lz: usize) -> (r: usize)
        requires
            local_idx(lx as int, ly as int, lz as int) <= usize::MAX,
        ensures
            r == local_idx(lx as int, ly as int, lz as int),
    {
        lx + ly * CHUNK_SIZE_U + lz * CHUNK_SIZE_U * CHUNK_SIZE_U
    }

    pub fn get(&self, lx: usize, ly: usize, lz: usize) -> (r: &Voxel)
        requires
            self.wf(),
            local_idx(lx as int, ly as int, lz as int) < CHUNK_VOL,
        ensures
            *r == self.voxels@[local_idx(lx as int, ly as int, lz as int)],
    {
        &self.voxels[Self::idx(lx, ly, lz)]
    }

    pub fn get_mut(&mut self, lx: usize, ly: usize, lz: usize) -> (r: &mut Voxel)
        requires
            old(self).wf(),
            local_idx(lx as int, ly as int, lz as int) < CHUNK_VOL,
        ensures
            *r == old(self).voxels@[local_idx(lx as int, ly as int, lz as int)],
            final(self).voxels@ == old(self).voxels@.update(
                local_idx(lx as int, ly as int, lz as int),
                *final(r),
            ),
    {
        let i = Self::idx(lx, ly, lz);
        &mut self.voxels[i]
    }

    pub fn is_empty(&self) -> (r: bool)
        ensures
            r == (forall|i: int| 0 <= i < self.voxels.len() ==> !(#[trigger] self.voxels@[i]).occupied),
    {
        let mut i: usize = 0;
        while i < self.voxels.len()
            invariant
                i <= self.voxels.len(),
                forall|k: int| 0 <= k < i ==> !(#[trigger] self.voxels@[k]).occupied,
            decreases self.voxels.len() - i,
        {
            if self.voxels[i].occupied {
                return false;
            }
            i = i + 1;
        }
        true
    }

    pub fn occupied_count(&self) -> (r: usize)
        ensures
            r == count_occupied(self.voxels@),
    {
        let mut n: usize = 0;
        let mut i: usize = 0;
        while i < self.voxels.len()
            invariant
                i <= self.voxels.len(),
                n == count_occupied(self.voxels@.take(i as int)),
                n <= i,
            decreases self.voxels.len() - i,
        {
            assert(self.voxels@.take(i + 1).drop_last() == self.voxels@.take(i as int));
            if self.voxels[i].occupied {
                n = n + 1;
            }
            i = i + 1;
        }
        assert(self.voxels@.take(self.voxels.len() as int) == self.voxels@);
        n
    }
}

impl Default for VoxelChunk {
    fn default() -> (r: VoxelChunk)
        ensures
            r.wf(),
            forall|i: int| 0 <= i < CHUNK_VOL ==> #[trigger] r.voxels@[i] == empty_voxel(),
    {
        VoxelChunk::new()
    }
}

// ---------------------------------------------------------------------------
// Coordinates
// ---------------------------------------------------------------------------

/// The chunk that holds a cell: each coordinate divided by 32, rounding down.
pub open spec fn chunk_of(p: IVec3) -> IVec3 {
    IVec3 { x: (p.x / 32) as i32, y: (p.y / 32) as i32, z: (p.z / 32) as i32 }
}

/// The index of a cell inside its chunk.
pub open spec fn local_index(p: IVec3) -> int {
    local_idx((p.x as int) % 32, (p.y as int) % 32, (p.z as int) % 32)
}

/// The cell at linear index `idx` of chunk `c`.
pub open spec fn pos_in_chunk(c: IVec3, idx: int) -> IVec3 {
    IVec3 {
        x: (32 * c.x + idx % 32) as i32,
        y: (32 * c.y + (idx / 32) % 32) as i32,
        z: (32 * c.z + idx / 1024) as i32,
    }
}

/// Chunk coordinates that a cell with `i32` coordinates can have.
pub open spec fn coord_in_range(c: IVec3) -> bool {
    &&& -0x4000000 <= c.x < 0x4000000
    &&& -0x4000000 <= c.y < 0x4000000
    &&& -0x4000000 <= c.z < 0x4000000
}

proof fn lemma_div32(v: int)
    requires
        i32::MIN <= v <= i32::MAX,
    ensures
        -0x4000000 <= v / 32 < 0x4000000,
        0 <= v % 32 < 32,
        v == 32 * (v / 32) + v % 32,
{
    assert(v == 32 * (v / 32) + v % 32) by (nonlinear_arith);
    assert(0 <= v % 32 < 32) by (nonlinear_arith);
}

proof fn lemma_divmod_unique(v: int, q: int, r: int)
    requires
        v == 32 * q + r,
        0 <= r < 32,
    ensures
        v / 32 == q,
        v % 32 == r,
{
    assert(v / 32 == q && v % 32 == r) by (nonlinear_arith)
        requires
            v == 32 * q + r,
            0 <= r < 32,
    ;
}

/// Decomposing a local index into its three coordinates.
proof fn lemma_local_idx_decompose(idx: int)
    requires
        0 <= idx < 32768,
    ensures
        0 <= idx % 32 < 32,
        0 <= (idx / 32) % 32 < 32,
        0 <= idx / 1024 < 32,
        local_idx(idx % 32, (idx / 32) % 32, idx / 1024) == idx,
{
    assert(0 <= idx % 32 < 32 && 0 <= (idx / 32) % 32 < 32 && 0 <= idx / 1024 < 32 && idx % 32
        + 32 * ((idx / 32) % 32) + 1024 * (idx / 1024) == idx) by (nonlinear_arith)
        requires
            0 <= idx < 32768,
    ;
}

proof fn lemma_local_idx_unique(lx: int, ly: int, lz: int)
    requires
        0 <= lx < 32,
        0 <= ly < 32,
        0 <= lz < 32,
    ensures
        0 <= local_idx(lx, ly, lz) < 32768,
        local_idx(lx, ly, lz) % 32 == lx,
        (local_idx(lx, ly, lz) / 32) % 32 == ly,
        local_idx(lx, ly, lz) / 1024 == lz,
{
    let i = lx + 32 * ly + 1024 * lz;
    assert(i % 32 == lx && (i / 32) % 32 == ly && i / 1024 == lz) by (nonlinear_arith)
        requires
            0 <= lx < 32,
            0 <= ly < 32,
            0 <= lz < 32,
            i == lx + 32 * ly + 1024 * lz,
    ;
}

/// Every `i32` cell lies in an in-range chunk, at an index below `CHUNK_VOL`.
pub proof fn lemma_chunk_of_range(p: IVec3)
    ensures
        coord_in_range(chunk_of(p)),
        0 <= local_index(p) < CHUNK_VOL,
        pos_in_chunk(chunk_of(p), local_index(p)) == p,
{
    lemma_div32(p.x as int);
    lemma_div32(p.y as int);
    lemma_div32(p.z as int);
    lemma_local_idx_unique((p.x as int) % 32, (p.y as int) % 32, (p.z as int) % 32);
}

/// The cell at index `idx` of chunk `c` lies in chunk `c` at index `idx`.
pub proof fn lemma_pos_in_chunk(c: IVec3, idx: int)
    requires
        coord_in_range(c),
        0 <= idx < CHUNK_VOL,
    ensures
        chunk_of(pos_in_chunk(c, idx)) == c,
        local_index(pos_in_chunk(c, idx)) == idx,
        i32::MIN <= 32 * c.x + idx % 32 <= i32::MAX,
        i32::MIN <= 32 * c.y + (idx / 32) % 32 <= i32::MAX,
        i32::MIN <= 32 * c.z + idx / 1024 <= i32::MAX,
{
    lemma_local_idx_decompose(idx);
    let p = pos_in_chunk(c, idx);
    lemma_divmod_unique(32 * c.x + idx % 32, c.x as int, idx % 32);
    lemma_divmod_unique(32 * c.y + (idx / 32) % 32, c.y as int, (idx / 32) % 32);
    lemma_divmod_unique(32 * c.z + idx / 1024, c.z as int, idx / 1024);
}

/// Floor division by 32.
fn div_floor_32(v: i32) -> (r: i32)
    ensures
        r == v / 32,
{
    proof {
        lemma_div32(v as int);
    }
    if v >= 0 {
        let u: u32 = v as u32;
        (u / 32) as i32
    } else {
        let w: u32 = (-(v + 1)) as u32;
        let q: u32 = w / 32;
        proof {
            let vi = v as int;
            let wi = w as int;
            assert(wi == -vi - 1);
            assert(wi == 32 * (wi / 32) + wi % 32 && 0 <= wi % 32 < 32) by (nonlinear_arith)
                requires
                    wi >= 0,
            ;
            lemma_divmod_unique(vi, -(wi / 32) - 1, 31 - wi % 32);
        }
        -(q as i32) - 1
    }
}

// ---------------------------------------------------------------------------
// Occupied-cell enumeration
// ---------------------------------------------------------------------------

/// The occupied cells among the first `n` cells of chunk `c` (holding `vs`), in index order.
pub open spec fn chunk_entries(c: IVec3, vs: Seq<Voxel>, n: int) -> Seq<(IVec3, Voxel)>
    decreases n,
{
    if n <= 0 {
        Seq::empty()
    } else {
        let prev = chunk_entries(c, vs, n - 1);
        if vs[n - 1].occupied {
            prev.push((pos_in_chunk(c, n - 1), vs[n - 1]))
        } else {
            prev
        }
    }
}

/// The occupied cells of the first `k` chunks, chunk by chunk.
pub open spec fn entries_upto(chunks: Seq<(IVec3, VoxelChunk)>, k: int) -> Seq<(IVec3, Voxel)>
    decreases k,
{
    if k <= 0 {
        Seq::empty()
    } else {
        entries_upto(chunks, k - 1) + chunk_entries(
            chunks[k - 1].0,
            chunks[k - 1].1.voxels@,
            CHUNK_VOL as int,
        )
    }
}

/// Selects one axis of a position: 0 is x, 1 is y, anything else z.
pub open spec fn axis_of(p: IVec3, axis: int) -> int {
    if axis == 0 {
        p.x as int
    } else if axis == 1 {
        p.y as int
    } else {
        p.z as int
    }
}

/// The least coordinate on `axis` over the positions of `s`, or `i32::MAX` when `s` is empty.
pub open spec fn min_on_axis(s: Seq<(IVec3, Voxel)>, axis: int) -> int
    decreases s.len(),
{
    if s.len() == 0 {
        i32::MAX as int
    } else {
        let m = min_on_axis(s.drop_last(), axis);
        let v = axis_of(s.last().0, axis);
        if v < m {
            v
        } else {
            m
        }
    }
}

/// The greatest coordinate on `axis` over the positions of `s`, or `i32::MIN` when `s` is empty.
pub open spec fn max_on_axis(s: Seq<(IVec3, Voxel)>, axis: int) -> int
    decreases s.len(),
{
    if s.len() == 0 {
        i32::MIN as int
    } else {
        let m = max_on_axis(s.drop_last(), axis);
        let v = axis_of(s.last().0, axis);
        if v > m {
            v
        } else {
            m
        }
    }
}

// ---------------------------------------------------------------------------
// The grid
// ---------------------------------------------------------------------------

/// A sparse grid: a list of chunks, each stored under its chunk coordinate.
pub struct VoxelGrid {
    pub chunks: Vec<(IVec3, VoxelChunk)>,
}

impl VoxelGrid {
    /// Every chunk is full size, lies in range, and no chunk coordinate occurs twice.
    pub open spec fn wf(&self) -> bool {
        &&& forall|i: int| 0 <= i < self.chunks.len() ==> (#[trigger] self.chunks@[i]).1.wf()
        &&& forall|i: int| 0 <= i < self.chunks.len() ==> coord_in_range((#[trigger] self.chunks@[i]).0)
        &&& forall|i: int, j: int|
            0 <= i < self.chunks.len() && 0 <= j < self.chunks.len() && i != j
                ==> (#[trigger] self.chunks@[i]).0 != (#[trigger] self.chunks@[j]).0
    }

    pub open spec fn has_chunk(&self, c: IVec3) -> bool {
        exists|i: int| 0 <= i < self.chunks.len() && (#[trigger] self.chunks@[i]).0 == c
    }

    pub open spec fn chunk_index(&self, c: IVec3) -> int {
        choose|i: int| 0 <= i < self.chunks.len() && (#[trigger] self.chunks@[i]).0 == c
    }

    /// The cell stored at `p`, if its chunk exists.
    pub open spec fn cell(&self, p: IVec3) -> Option<Voxel> {
        if self.has_chunk(chunk_of(p)) {
            Some(self.chunks@[self.chunk_index(chunk_of(p))].1.voxels@[local_index(p)])
        } else {
            None
        }
    }

    pub open spec fn occupied(&self, p: IVec3) -> bool {
        self.cell(p) matches Some(v) && v.occupied
    }

    /// The occupied cells, chunk by chunk, each chunk in index order.
    pub open spec fn occupied_list(&self) -> Seq<(IVec3, Voxel)> {
        entries_upto(self.chunks@, self.chunks.len() as int)
    }

    pub proof fn lemma_chunk_index(&self, i: int)
        requires
            self.wf(),
            0 <= i < self.chunks.len(),
        ensures
            self.has_chunk(self.chunks@[i].0),
            self.chunk_index(self.chunks@[i].0) == i,
    {
        let c = self.chunks@[i].0;
        assert(self.has_chunk(c));
        let j = self.chunk_index(c);
        assert(self.chunks@[j].0 == c);
    }

    pub fn new() -> (r: VoxelGrid)
        ensures
            r.wf(),
            r.chunks@.len() == 0,
            forall|p: IVec3| r.cell(p) is None,
    {
        VoxelGrid { chunks: Vec::new() }
    }

    pub fn voxel_to_chunk(voxel: IVec3) -> (r: (IVec3, [usize; 3]))
        ensures
            r.0 == chunk_of(voxel),
            r.1[0] == (voxel.x as int) % 32,
            r.1[1] == (voxel.y as int) % 32,
            r.1[2] == (voxel.z as int) % 32,
    {
        let cx = div_floor_32(voxel.x);
        let cy = div_floor_32(voxel.y);
        let cz = div_floor_32(voxel.z);
        proof {
            lemma_div32(voxel.x as int);
            lemma_div32(voxel.y as int);
            lemma_div32(voxel.z as int);
        }
        let lx = (voxel.x - cx * CHUNK_SIZE) as usize;
        let ly = (voxel.y - cy * CHUNK_SIZE) as usize;
        let lz = (voxel.z - cz * CHUNK_SIZE) as usize;
        (IVec3 { x: cx, y: cy, z: cz }, [lx, ly, lz])
    }

    /// Index of the chunk stored under `c`.
    fn find_chunk(&self, c: IVec3) -> (r: Option<usize>)
        requires
            self.wf(),
        ensures
            r matches Some(i) ==> i < self.chunks.len() && self.chunks@[i as int].0 == c
                && self.chunk_index(c) == i,
            r is None <==> !self.has_chunk(c),
    {
        let mut i: usize = 0;
        while i < self.chunks.len()
            invariant
                self.wf(),
                i <= self.chunks.len(),
                forall|k: int| 0 <= k < i ==> (#[trigger] self.chunks@[k]).0 != c,
            decreases self.chunks.len() - i,
        {
            if self.chunks[i].0 == c {
                proof {
                    self.lemma_chunk_index(i as int);
                }
                return Some(i);
            }
            i = i + 1;
        }
        None
    }

    /// Stores `v` at `voxel`, creating the chunk (filled with empty cells) if needed.
    pub fn set_voxel(&mut self, voxel: IVec3, v: Voxel)
        requires
            old(self).wf(),
        ensures
            final(self).wf(),
            final(self).cell(voxel) == Some(v),
            forall|q: IVec3|
                q != voxel ==> #[trigger] final(self).cell(q) == (if old(self).has_chunk(
                    chunk_of(q),
                ) {
                    old(self).cell(q)
                } else if chunk_of(q) == chunk_of(voxel) {
                    Some(empty_voxel())
                } else {
                    None
                }),
            forall|c: IVec3| #[trigger]
                final(self).has_chunk(c) == (old(self).has_chunk(c) || c == chunk_of(voxel)),
            forall|q: IVec3| q != voxel ==> #[trigger] final(self).occupied(q) == old(self).occupied(q),
            final(self).chunks.len() >= old(self).chunks.len(),
            final(self).occupied_set().len() == old(self).occupied_set().len() - (if old(
                self,
            ).occupied(voxel) {
                1int
            } else {
                0int
            }) + (if v.occupied {
                1int
            } else {
                0int
            }),
    {
        let ghost before = *self;
        let (chunk_coord, l) = Self::voxel_to_chunk(voxel);
        let lx = l[0];
        let ly = l[1];
        let lz = l[2];
        proof {
            lemma_chunk_of_range(voxel);
        }
        let idx = VoxelChunk::idx(lx, ly, lz);
        assert(idx == local_index(voxel));
        match self.find_chunk(chunk_coord) {
            Some(i) => {
                let ghost old_chunks = self.chunks@;
                self.chunks[i].1.voxels.set(idx, v);
                proof {
                    assert forall|k: int| 0 <= k < self.chunks.len() implies self.chunks@[k].0
                        == old_chunks[k].0 by {}
                    assert forall|c: IVec3| #[trigger] self.has_chunk(c) == old(self).has_chunk(
                        c,
                    ) by {
                        if old(self).has_chunk(c) {
                            let k = old(self).chunk_index(c);
                            assert(self.chunks@[k].0 == c);
                        }
                        if self.has_chunk(c) {
                            let k = self.chunk_index(c);
                            assert(old_chunks[k].0 == c);
                        }
                    }
                    assert forall|q: IVec3| q != voxel implies #[trigger] self.cell(q) == old(
                        self,
                    ).cell(q) by {
                        if self.has_chunk(chunk_of(q)) {
                            let k = self.chunk_index(chunk_of(q));
                            self.lemma_chunk_index(k);
                            old(self).lemma_chunk_index(k);
                            if k == i {
                                lemma_chunk_of_range(q);
                                lemma_chunk_of_range(voxel);
                                assert(local_index(q) != local_index(voxel));
                            }
                        }
                    }
                    self.lemma_chunk_index(i as int);
                }
            },
            None => {
                let mut chunk = VoxelChunk::new();
                chunk.voxels.set(idx, v);
                let ghost old_chunks = self.chunks@;
                self.chunks.push((chunk_coord, chunk));
                proof {
                    let n = old_chunks.len() as int;
                    assert(self.chunks@[n].0 == chunk_coord);
                    assert forall|c: IVec3| #[trigger] self.has_chunk(c) == (old(
                        self,
                    ).has_chunk(c) || c == chunk_coord) by {
                        if old(self).has_chunk(c) {
                            let k = old(self).chunk_index(c);
                            assert(self.chunks@[k].0 == c);
                        }
                        if self.has_chunk(c) {
                            let k = self.chunk_index(c);
                            if k < n {
                                assert(old_chunks[k].0 == c);
                            }
                        }
                    }
                    assert forall|q: IVec3| q != voxel implies #[trigger] self.cell(q) == (
                    if old(self).has_chunk(chunk_of(q)) {
                        old(self).cell(q)
                    } else if chunk_of(q) == chunk_of(voxel) {
                        Some(empty_voxel())
                    } else {
                        None
                    }) by {
                        lemma_chunk_of_range(q);
                        if self.has_chunk(chunk_of(q)) {
                            let k = self.chunk_index(chunk_of(q));
                            self.lemma_chunk_index(k);
                            if k < n {
                                old(self).lemma_chunk_index(k);
                            } else {
                                assert(local_index(q) != local_index(voxel));
                            }
                        }
                    }
                    self.lemma_chunk_index(n);
                }
            },
        }
        proof {
            lemma_one_cell_count(&before, self, voxel);
        }
    }

    /// The cell stored at `voxel`, if its chunk exists.
    pub fn get_voxel(&self, voxel: IVec3) -> (r: Option<&Voxel>)
        requires
            self.wf(),
        ensures
            r is None <==> self.cell(voxel) is None,
            r matches Some(v) ==> self.cell(voxel) == Some(*v),
    {
        let (chunk_coord, l) = Self::voxel_to_chunk(voxel);
        proof {
            lemma_chunk_of_range(voxel);
        }
        match self.find_chunk(chunk_coord) {
            Some(i) => Some(self.chunks[i].1.get(l[0], l[1], l[2])),
            None => None,
        }
    }

    pub fn is_occupied(&self, voxel: IVec3) -> (r: bool)
        requires
            self.wf(),
        ensures
            r == self.occupied(voxel),
    {
        match self.get_voxel(voxel) {
            Some(v) => v.occupied,
            None => false,
        }
    }
}


// ---------------------------------------------------------------------------
// Facts about the occupied-cell enumeration
// ---------------------------------------------------------------------------

proof fn lemma_chunk_entries_sound(c: IVec3, vs: Seq<Voxel>, n: int)
    requires
        coord_in_range(c),
        0 <= n <= CHUNK_VOL,
        vs.len() == CHUNK_VOL,
    ensures
        forall|k: int|
            0 <= k < chunk_entries(c, vs, n).len() ==> {
                let e = #[trigger] chunk_entries(c, vs, n)[k];
                &&& chunk_of(e.0) == c
                &&& 0 <= local_index(e.0) < n
                &&& vs[local_index(e.0)] == e.1
                &&& e.1.occupied
            },
        forall|k1: int, k2: int|
            0 <= k1 < k2 < chunk_entries(c, vs, n).len() ==> local_index(
                (#[trigger] chunk_entries(c, vs, n)[k1]).0,
            ) < local_index((#[trigger] chunk_entries(c, vs, n)[k2]).0),
        chunk_entries(c, vs, n).len() <= n,
    decreases n,
{
    if n > 0 {
        lemma_chunk_entries_sound(c, vs, n - 1);
        lemma_pos_in_chunk(c, n - 1);
    }
}

proof fn lemma_chunk_entries_complete(c: IVec3, vs: Seq<Voxel>, n: int, j: int)
    requires
        0 <= j < n,
        vs[j].occupied,
    ensures
        exists|k: int|
            0 <= k < chunk_entries(c, vs, n).len() && (#[trigger] chunk_entries(c, vs, n)[k]).0
                == pos_in_chunk(c, j),
    decreases n,
{
    let s = chunk_entries(c, vs, n);
    if j == n - 1 {
        assert(s[s.len() - 1].0 == pos_in_chunk(c, j));
    } else {
        lemma_chunk_entries_complete(c, vs, n - 1, j);
        let prev = chunk_entries(c, vs, n - 1);
        let k = choose|k: int| 0 <= k < prev.len() && (#[trigger] prev[k]).0 == pos_in_chunk(c, j);
        assert(s[k] == prev[k]);
    }
}

impl VoxelGrid {
    proof fn lemma_entries_sound(&self, m: int)
        requires
            self.wf(),
            0 <= m <= self.chunks.len(),
        ensures
            forall|k: int|
                0 <= k < entries_upto(self.chunks@, m).len() ==> {
                    let e = #[trigger] entries_upto(self.chunks@, m)[k];
                    &&& self.has_chunk(chunk_of(e.0))
                    &&& 0 <= self.chunk_index(chunk_of(e.0)) < m
                    &&& self.cell(e.0) == Some(e.1)
                    &&& e.1.occupied
                },
            forall|k1: int, k2: int|
                0 <= k1 < entries_upto(self.chunks@, m).len() && 0 <= k2 < entries_upto(
                    self.chunks@,
                    m,
                ).len() && k1 != k2 ==> (#[trigger] entries_upto(self.chunks@, m)[k1]).0
                    != (#[trigger] entries_upto(self.chunks@, m)[k2]).0,
        decreases m,
    {
        if m > 0 {
            self.lemma_entries_sound(m - 1);
            let prev = entries_upto(self.chunks@, m - 1);
            let c = self.chunks@[m - 1].0;
            let vs = self.chunks@[m - 1].1.voxels@;
            let seg = chunk_entries(c, vs, CHUNK_VOL as int);
            lemma_chunk_entries_sound(c, vs, CHUNK_VOL as int);
            self.lemma_chunk_index(m - 1);
            let all = entries_upto(self.chunks@, m);
            assert(all == prev + seg);
            assert forall|k: int| 0 <= k < all.len() implies {
                let e = #[trigger] all[k];
                &&& self.has_chunk(chunk_of(e.0))
                &&& 0 <= self.chunk_index(chunk_of(e.0)) < m
                &&& self.cell(e.0) == Some(e.1)
                &&& e.1.occupied
            } by {
                if k >= prev.len() {
                    assert(all[k] == seg[k - prev.len()]);
                } else {
                    assert(all[k] == prev[k]);
                }
            }
            assert forall|k1: int, k2: int|
                0 <= k1 < all.len() && 0 <= k2 < all.len() && k1 != k2 implies (
            #[trigger] all[k1]).0 != (#[trigger] all[k2]).0 by {
                if k1 < prev.len() && k2 < prev.len() {
                    assert(all[k1] == prev[k1] && all[k2] == prev[k2]);
                } else if k1 >= prev.len() && k2 >= prev.len() {
                    assert(all[k1] == seg[k1 - prev.len()] && all[k2] == seg[k2 - prev.len()]);
                    if k1 < k2 {
                        assert(local_index(seg[k1 - prev.len()].0) < local_index(
                            seg[k2 - prev.len()].0,
                        ));
                    } else {
                        assert(local_index(seg[k2 - prev.len()].0) < local_index(
                            seg[k1 - prev.len()].0,
                        ));
                    }
                } else if k1 < prev.len() {
                    assert(all[k1] == prev[k1] && all[k2] == seg[k2 - prev.len()]);
                } else {
                    assert(all[k2] == prev[k2] && all[k1] == seg[k1 - prev.len()]);
                }
            }
        }
    }

    proof fn lemma_entries_complete(&self, m: int, i: int, j: int)
        requires
            self.wf(),
            0 <= i < m <= self.chunks.len(),
            0 <= j < CHUNK_VOL,
            self.chunks@[i].1.voxels@[j].occupied,
        ensures
            exists|k: int|
                0 <= k < entries_upto(self.chunks@, m).len() && (#[trigger] entries_upto(
                    self.chunks@,
                    m,
                )[k]).0 == pos_in_chunk(self.chunks@[i].0, j),
        decreases m,
    {
        let prev = entries_upto(self.chunks@, m - 1);
        let c = self.chunks@[m - 1].0;
        let vs = self.chunks@[m - 1].1.voxels@;
        let seg = chunk_entries(c, vs, CHUNK_VOL as int);
        let all = entries_upto(self.chunks@, m);
        assert(all == prev + seg);
        if i < m - 1 {
            self.lemma_entries_complete(m - 1, i, j);
            let k = choose|k: int|
                0 <= k < prev.len() && (#[trigger] prev[k]).0 == pos_in_chunk(self.chunks@[i].0, j);
            assert(all[k] == prev[k]);
        } else {
            lemma_chunk_entries_complete(c, vs, CHUNK_VOL as int, j);
            let k = choose|k: int| 0 <= k < seg.len() && (#[trigger] seg[k]).0 == pos_in_chunk(c, j);
            assert(all[k + prev.len()] == seg[k]);
        }
    }

    /// The enumeration of occupied cells lists exactly the occupied cells, each once,
    /// each with its stored contents.
    pub proof fn lemma_occupied_list_exact(&self)
        requires
            self.wf(),
        ensures
            forall|k: int|
                0 <= k < self.occupied_list().len() ==> self.occupied(
                    (#[trigger] self.occupied_list()[k]).0,
                ) && self.cell(self.occupied_list()[k].0) == Some(self.occupied_list()[k].1),
            forall|p: IVec3|
                self.occupied(p) ==> exists|k: int|
                    0 <= k < self.occupied_list().len() && (#[trigger] self.occupied_list()[k]).0
                        == p,
            forall|k1: int, k2: int|
                0 <= k1 < self.occupied_list().len() && 0 <= k2 < self.occupied_list().len() && k1
                    != k2 ==> (#[trigger] self.occupied_list()[k1]).0 != (
                #[trigger] self.occupied_list()[k2]).0,
    {
        let n = self.chunks.len() as int;
        self.lemma_entries_sound(n);
        assert forall|p: IVec3| self.occupied(p) implies exists|k: int|
            0 <= k < self.occupied_list().len() && (#[trigger] self.occupied_list()[k]).0 == p by {
            lemma_chunk_of_range(p);
            let i = self.chunk_index(chunk_of(p));
            self.lemma_entries_complete(n, i, local_index(p));
        }
    }

    /// Every occupied cell, chunk by chunk and in index order within a chunk.
    pub fn iter_occupied(&self) -> (r: Vec<(IVec3, Voxel)>)
        requires
            self.wf(),
        ensures
            r@ == self.occupied_list(),
    {
        let mut out: Vec<(IVec3, Voxel)> = Vec::new();
        let mut i: usize = 0;
        while i < self.chunks.len()
            invariant
                self.wf(),
                i <= self.chunks.len(),
                out@ == entries_upto(self.chunks@, i as int),
            decreases self.chunks.len() - i,
        {
            let coord = self.chunks[i].0;
            let ghost vs = self.chunks@[i as int].1.voxels@;
            assert(self.chunks@[i as int].1.wf());
            let mut j: usize = 0;
            while j < CHUNK_VOL
                invariant
                    self.wf(),
                    i < self.chunks.len(),
                    j <= CHUNK_VOL,
                    coord == self.chunks@[i as int].0,
                    coord_in_range(coord),
                    vs == self.chunks@[i as int].1.voxels@,
                    vs.len() == CHUNK_VOL,
                    out@ == entries_upto(self.chunks@, i as int) + chunk_entries(coord, vs, j as int),
                decreases CHUNK_VOL - j,
            {
                let v = self.chunks[i].1.voxels[j];
                let ghost before = out@;
                if v.occupied {
                    proof {
                        lemma_pos_in_chunk(coord, j as int);
                    }
                    let p = IVec3 {
                        x: coord.x * CHUNK_SIZE + (j % CHUNK_SIZE_U) as i32,
                        y: coord.y * CHUNK_SIZE + ((j / CHUNK_SIZE_U) % CHUNK_SIZE_U) as i32,
                        z: coord.z * CHUNK_SIZE + (j / (CHUNK_SIZE_U * CHUNK_SIZE_U)) as i32,
                    };
                    assert(p == pos_in_chunk(coord, j as int));
                    out.push((p, v));
                    assert(out@ == entries_upto(self.chunks@, i as int) + chunk_entries(
                        coord,
                        vs,
                        j + 1,
                    ));
                }
                j = j + 1;
            }
            i = i + 1;
        }
        out
    }

    /// The positions of the occupied cells.
    pub open spec fn occupied_set(&self) -> Set<IVec3> {
        Set::new(|p: IVec3| self.occupied(p))
    }

    /// The occupied cells are finitely many, and the enumeration lists each of them once.
    pub proof fn lemma_occupied_count(&self)
        requires
            self.wf(),
        ensures
            self.occupied_set().finite(),
            self.occupied_set().len() == self.occupied_list().len(),
    {
        let list = self.occupied_list();
        let pos = list.map_values(|e: (IVec3, Voxel)| e.0);
        self.lemma_occupied_list_exact();
        assert(pos.no_duplicates()) by {
            assert forall|i: int, j: int| 0 <= i < pos.len() && 0 <= j < pos.len() && i != j implies pos[i]
                != pos[j] by {
                assert(pos[i] == list[i].0);
                assert(pos[j] == list[j].0);
            }
        }
        assert(pos.to_set() =~= self.occupied_set()) by {
            assert forall|p: IVec3| self.occupied(p) implies pos.contains(p) by {
                let k = choose|k: int| 0 <= k < list.len() && (#[trigger] list[k]).0 == p;
                assert(pos[k] == p);
            }
            assert forall|p: IVec3| pos.contains(p) implies self.occupied(p) by {
                let k = choose|k: int| 0 <= k < pos.len() && pos[k] == p;
                assert(list[k].0 == p);
            }
        }
        vstd::seq_lib::seq_to_set_is_finite(pos);
        pos.unique_seq_to_set();
    }

    /// Total number of occupied cells.
    pub fn total_voxels(&self) -> (r: usize)
        requires
            self.wf(),
        ensures
            r == self.occupied_list().len(),
            r == self.occupied_set().len(),
    {
        proof {
            self.lemma_occupied_count();
        }
        let cells = self.iter_occupied();
        cells.len()
    }

    /// The least and greatest corner of the occupied cells, or `None` when there are no chunks.
    /// With chunks but no occupied cell, the corners are `i32::MAX` and `i32::MIN` on every axis.
    pub fn bounds_voxel(&self) -> (r: Option<(IVec3, IVec3)>)
        requires
            self.wf(),
        ensures
            r is None <==> self.chunks.len() == 0,
            r matches Some((mn, mx)) ==> {
                &&& mn.x == min_on_axis(self.occupied_list(), 0)
                &&& mn.y == min_on_axis(self.occupied_list(), 1)
                &&& mn.z == min_on_axis(self.occupied_list(), 2)
                &&& mx.x == max_on_axis(self.occupied_list(), 0)
                &&& mx.y == max_on_axis(self.occupied_list(), 1)
                &&& mx.z == max_on_axis(self.occupied_list(), 2)
            },
    {
        if self.chunks.len() == 0 {
            return None;
        }
        let mut mn = IVec3::splat(i32::MAX);
        let mut mx = IVec3::splat(i32::MIN);
        let ghost mut seen: Seq<(IVec3, Voxel)> = Seq::empty();
        let mut i: usize = 0;
        while i < self.chunks.len()
            invariant
                self.wf(),
                i <= self.chunks.len(),
                seen == entries_upto(self.chunks@, i as int),
                mn.x == min_on_axis(seen, 0),
                mn.y == min_on_axis(seen, 1),
                mn.z == min_on_axis(seen, 2),
                mx.x == max_on_axis(seen, 0),
                mx.y == max_on_axis(seen, 1),
                mx.z == max_on_axis(seen, 2),
            decreases self.chunks.len() - i,
        {
            let coord = self.chunks[i].0;
            let ghost vs = self.chunks@[i as int].1.voxels@;
            assert(self.chunks@[i as int].1.wf());
            let mut j: usize = 0;
            while j < CHUNK_VOL
                invariant
                    self.wf(),
                    i < self.chunks.len(),
                    j <= CHUNK_VOL,
                    coord == self.chunks@[i as int].0,
                    coord_in_range(coord),
                    vs == self.chunks@[i as int].1.voxels@,
                    vs.len() == CHUNK_VOL,
                    seen == entries_upto(self.chunks@, i as int) + chunk_entries(coord, vs, j as int),
                    mn.x == min_on_axis(seen, 0),
                    mn.y == min_on_axis(seen, 1),
                    mn.z == min_on_axis(seen, 2),
                    mx.x == max_on_axis(seen, 0),
                    mx.y == max_on_axis(seen, 1),
                    mx.z == max_on_axis(seen, 2),
                decreases CHUNK_VOL - j,
            {
                if self.chunks[i].1.voxels[j].occupied {
                    let v = self.chunks[i].1.voxels[j];
                    proof {
                        lemma_pos_in_chunk(coord, j as int);
                    }
                    let g = IVec3 {
                        x: coord.x * CHUNK_SIZE + (j % CHUNK_SIZE_U) as i32,
                        y: coord.y * CHUNK_SIZE + ((j / CHUNK_SIZE_U) % CHUNK_SIZE_U) as i32,
                        z: coord.z * CHUNK_SIZE + (j / (CHUNK_SIZE_U * CHUNK_SIZE_U)) as i32,
                    };
                    assert(g == pos_in_chunk(coord, j as int));
                    mn = mn.min(g);
                    mx = mx.max(g);
                    proof {
                        let old_seen = seen;
                        seen = seen.push((g, v));
                        assert(seen.drop_last() == old_seen);
                        assert(seen == entries_upto(self.chunks@, i as int) + chunk_entries(
                            coord,
                            vs,
                            j + 1,
                        ));
                    }
                }
                j = j + 1;
            }
            i = i + 1;
        }
        Some((mn, mx))
    }
}

/// The least coordinate that `min_on_axis` reports is a lower bound, and is attained
/// unless the list is empty.
pub proof fn lemma_min_on_axis(s: Seq<(IVec3, Voxel)>, axis: int)
    ensures
        forall|k: int| 0 <= k < s.len() ==> min_on_axis(s, axis) <= axis_of((#[trigger] s[k]).0, axis),
        s.len() > 0 ==> exists|k: int|
            0 <= k < s.len() && axis_of((#[trigger] s[k]).0, axis) == min_on_axis(s, axis),
    decreases s.len(),
{
    if s.len() > 0 {
        lemma_min_on_axis(s.drop_last(), axis);
        assert forall|k: int| 0 <= k < s.len() implies min_on_axis(s, axis) <= axis_of(
            (#[trigger] s[k]).0,
            axis,
        ) by {
            if k < s.len() - 1 {
                assert(s[k] == s.drop_last()[k]);
            }
        }
        let last = s[s.len() - 1];
        if s.len() == 1 {
            assert(s.drop_last().len() == 0);
            assert(min_on_axis(s.drop_last(), axis) == i32::MAX as int);
        }
        if axis_of(last.0, axis) != min_on_axis(s, axis) {
            assert(s.len() > 1);
            let k = choose|k: int|
                0 <= k < s.drop_last().len() && axis_of((#[trigger] s.drop_last()[k]).0, axis)
                    == min_on_axis(s.drop_last(), axis);
            assert(s[k] == s.drop_last()[k]);
        }
    }
}

/// The greatest coordinate that `max_on_axis` reports is an upper bound, and is attained
/// unless the list is empty.
pub proof fn lemma_max_on_axis(s: Seq<(IVec3, Voxel)>, axis: int)
    ensures
        forall|k: int| 0 <= k < s.len() ==> axis_of((#[trigger] s[k]).0, axis) <= max_on_axis(s, axis),
        s.len() > 0 ==> exists|k: int|
            0 <= k < s.len() && axis_of((#[trigger] s[k]).0, axis) == max_on_axis(s, axis),
    decreases s.len(),
{
    if s.len() > 0 {
        lemma_max_on_axis(s.drop_last(), axis);
        assert forall|k: int| 0 <= k < s.len() implies axis_of((#[trigger] s[k]).0, axis)
            <= max_on_axis(s, axis) by {
            if k < s.len() - 1 {
                assert(s[k] == s.drop_last()[k]);
            }
        }
        let last = s[s.len() - 1];
        if s.len() == 1 {
            assert(s.drop_last().len() == 0);
            assert(max_on_axis(s.drop_last(), axis) == i32::MIN as int);
        }
        if axis_of(last.0, axis) != max_on_axis(s, axis) {
            assert(s.len() > 1);
            let k = choose|k: int|
                0 <= k < s.drop_last().len() && axis_of((#[trigger] s.drop_last()[k]).0, axis)
                    == max_on_axis(s.drop_last(), axis);
            assert(s[k] == s.drop_last()[k]);
        }
    }
}


/// Whether no cell of a chunk is occupied.
pub open spec fn chunk_is_empty(vs: Seq<Voxel>) -> bool {
    forall|i: int| 0 <= i < vs.len() ==> !(#[trigger] vs[i]).occupied
}

impl VoxelGrid {
    /// Drops every chunk that holds no occupied cell; the other chunks keep their order and cells.
    pub fn retain_nonempty(&mut self)
        requires
            old(self).wf(),
        ensures
            final(self).wf(),
            forall|c: IVec3| #[trigger]
                final(self).has_chunk(c) == (old(self).has_chunk(c) && !chunk_is_empty(
                    old(self).chunks@[old(self).chunk_index(c)].1.voxels@,
                )),
            forall|p: IVec3| final(self).has_chunk(chunk_of(p)) ==> #[trigger] final(self).cell(p)
                == old(self).cell(p),
    {
        let ghost orig = self.chunks@;
        let ghost n = orig.len();
        let mut rest: Vec<(IVec3, VoxelChunk)> = Vec::new();
        std::mem::swap(&mut rest, &mut self.chunks);
        let mut kept: Vec<(IVec3, VoxelChunk)> = Vec::new();
        let ghost mut consumed: int = 0;
        let ghost mut origin: Seq<int> = Seq::empty();
        while rest.len() > 0
            invariant
                old(self).wf(),
                orig == old(self).chunks@,
                n == orig.len(),
                0 <= consumed <= n,
                rest@ == orig.subrange(consumed, n as int),
                origin.len() == kept@.len(),
                kept@.len() <= consumed,
                forall|j: int|
                    0 <= j < kept@.len() ==> 0 <= #[trigger] origin[j] < consumed && kept@[j]
                        == orig[origin[j]] && !chunk_is_empty(orig[origin[j]].1.voxels@),
                forall|j1: int, j2: int|
                    0 <= j1 < j2 < kept@.len() ==> #[trigger] origin[j1] < #[trigger] origin[j2],
                forall|t: int|
                    0 <= t < consumed && !chunk_is_empty(#[trigger] orig[t].1.voxels@) ==> exists|
                        j: int,
                    | 0 <= j < kept@.len() && #[trigger] origin[j] == t,
            decreases rest.len(),
        {
            let e = rest.remove(0);
            assert(orig[consumed] == e);
            assert(e.1.wf());
            let ghost old_origin = origin;
            if !e.1.is_empty() {
                proof {
                    origin = origin.push(consumed);
                }
                kept.push(e);
            }
            proof {
                assert forall|t: int|
                    0 <= t < consumed + 1 && !chunk_is_empty(#[trigger] orig[t].1.voxels@) implies exists|
                    j: int,
                | 0 <= j < kept@.len() && #[trigger] origin[j] == t by {
                    if t < consumed {
                        let j = choose|j: int| 0 <= j < old_origin.len() && #[trigger] old_origin[j] == t;
                        assert(origin[j] == t);
                    } else {
                        assert(origin[origin.len() - 1] == t);
                    }
                }
                consumed = consumed + 1;
            }
            assert(rest@ =~= orig.subrange(consumed, n as int));
        }
        self.chunks = kept;
        proof {
            let k = self.chunks@;
            assert forall|i: int| 0 <= i < k.len() implies (#[trigger] k[i]).1.wf() && coord_in_range(
                k[i].0,
            ) by {
                assert(k[i] == orig[origin[i]]);
            }
            assert forall|i: int, j: int|
                0 <= i < k.len() && 0 <= j < k.len() && i != j implies (#[trigger] k[i]).0 != (
            #[trigger] k[j]).0 by {
                assert(origin[i] != origin[j]) by {
                    if i < j {
                        assert(origin[i] < origin[j]);
                    } else {
                        assert(origin[j] < origin[i]);
                    }
                }
            }
            assert forall|c: IVec3| #[trigger]
                self.has_chunk(c) == (old(self).has_chunk(c) && !chunk_is_empty(
                    orig[old(self).chunk_index(c)].1.voxels@,
                )) by {
                if self.has_chunk(c) {
                    let j = self.chunk_index(c);
                    old(self).lemma_chunk_index(origin[j]);
                }
                if old(self).has_chunk(c) && !chunk_is_empty(
                    orig[old(self).chunk_index(c)].1.voxels@,
                ) {
                    let t = old(self).chunk_index(c);
                    let j = choose|j: int| 0 <= j < k.len() && #[trigger] origin[j] == t;
                    assert(k[j].0 == c);
                }
            }
            assert(self.wf());
            assert forall|p: IVec3| self.has_chunk(chunk_of(p)) implies #[trigger] self.cell(p)
                == old(self).cell(p) by {
                let j = self.chunk_index(chunk_of(p));
                self.lemma_chunk_index(j);
                old(self).lemma_chunk_index(origin[j]);
            }
        }
    }
}

/// Two grids whose occupancy agrees everywhere but at one cell have occupied counts
/// that differ by that cell alone.
proof fn lemma_one_cell_count(before: &VoxelGrid, after: &VoxelGrid, p: IVec3)
    requires
        before.wf(),
        after.wf(),
        forall|q: IVec3| q != p ==> #[trigger] after.occupied(q) == before.occupied(q),
    ensures
        after.occupied_set().len() == before.occupied_set().len() - (if before.occupied(p) {
            1int
        } else {
            0int
        }) + (if after.occupied(p) {
            1int
        } else {
            0int
        }),
{
    before.lemma_occupied_count();
    after.lemma_occupied_count();
    let a = before.occupied_set();
    let b = after.occupied_set();
    assert(a.remove(p) =~= b.remove(p));
    if !a.contains(p) {
        assert(a.remove(p) =~= a);
    }
    if !b.contains(p) {
        assert(b.remove(p) =~= b);
    }
}

} // verus!
