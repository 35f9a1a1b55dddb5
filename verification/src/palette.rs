//! The block database, and the choice of a block for each occupied cell.
use vstd::prelude::*;

use crate::geom::IVec3;
use crate::voxel::{Voxel, VoxelGrid};

verus! {

/// A Minecraft block the converter can place.
#[derive(Clone, Copy, Debug)]
pub struct BlockDef {
    pub id: u16,
    pub name: &'static str,
    pub display: &'static str,
    pub color: [u8; 3],
    pub opaque: bool,
}

/// The first block in `blocks` whose id is `id`.
pub open spec fn lookup(blocks: Seq<BlockDef>, id: u16) -> Option<BlockDef>
    decreases blocks.len(),
{
    if blocks.len() == 0 {
        None
    } else if blocks[0].id == id {
        Some(blocks[0])
    } else {
        lookup(blocks.subrange(1, blocks.len() as int), id)
    }
}

/// The color that stands for block `id`: its own, or mid gray for an unknown id.
pub open spec fn color_of(blocks: Seq<BlockDef>, id: u16) -> [u8; 3] {
    match lookup(blocks, id) {
        Some(b) => b.color,
        None => [128u8, 128u8, 128u8],
    }
}

/// Ordering key of `f64::MAX`: every finite, non-negative distance has a smaller key.
pub const F64_MAX_KEY: u64 = 0x7fef_ffff_ffff_ffff;

/// Whether block `b` may be chosen under the optional allow list.
pub open spec fn eligible(b: BlockDef, allowed: Option<Seq<u16>>) -> bool {
    &&& b.opaque
    &&& (allowed matches Some(ids) ==> ids.contains(b.id))
}

/// Scanning the first `n` blocks in order: the id of the first block whose key is smaller
/// than every key seen before, together with that key; starting from id 1 and `F64_MAX_KEY`.
pub open spec fn best_upto(
    blocks: Seq<BlockDef>,
    keys: Seq<u64>,
    allowed: Option<Seq<u16>>,
    n: int,
) -> (u16, u64)
    decreases n,
{
    if n <= 0 {
        (1u16, F64_MAX_KEY)
    } else {
        let prev = best_upto(blocks, keys, allowed, n - 1);
        if eligible(blocks[n - 1], allowed) && keys[n - 1] < prev.1 {
            (blocks[n - 1].id, keys[n - 1])
        } else {
            prev
        }
    }
}

/// The best match is the earliest block of least key: its key is no larger than the key of
/// any eligible block, and unless no eligible block beats `F64_MAX_KEY`, it comes from an
/// eligible block whose every eligible predecessor has a strictly larger key.
pub proof fn lemma_best_is_least(
    blocks: Seq<BlockDef>,
    keys: Seq<u64>,
    allowed: Option<Seq<u16>>,
    n: int,
)
    requires
        0 <= n <= blocks.len(),
        keys.len() == blocks.len(),
    ensures
        forall|i: int|
            0 <= i < n && eligible(#[trigger] blocks[i], allowed) ==> best_upto(
                blocks,
                keys,
                allowed,
                n,
            ).1 <= keys[i],
        best_upto(blocks, keys, allowed, n).1 < F64_MAX_KEY ==> exists|i: int|
            {
                &&& 0 <= i < n
                &&& eligible(blocks[i], allowed)
                &&& #[trigger] keys[i] == best_upto(blocks, keys, allowed, n).1
                &&& blocks[i].id == best_upto(blocks, keys, allowed, n).0
                &&& forall|j: int|
                    0 <= j < i && eligible(#[trigger] blocks[j], allowed) ==> keys[j] > keys[i]
            },
        best_upto(blocks, keys, allowed, n).1 <= F64_MAX_KEY,
        best_upto(blocks, keys, allowed, n).1 == F64_MAX_KEY ==> best_upto(
            blocks,
            keys,
            allowed,
            n,
        ).0 == 1,
    decreases n,
{
    if n > 0 {
        lemma_best_is_least(blocks, keys, allowed, n - 1);
        let prev = best_upto(blocks, keys, allowed, n - 1);
        let cur = best_upto(blocks, keys, allowed, n);
        if eligible(blocks[n - 1], allowed) && keys[n - 1] < prev.1 {
            assert forall|j: int|
                0 <= j < n - 1 && eligible(#[trigger] blocks[j], allowed) implies keys[j] > keys[n
                - 1] by {}
            assert(keys[n - 1] == cur.1);
        } else if cur.1 < F64_MAX_KEY {
            let i = choose|i: int|
                {
                    &&& 0 <= i < n - 1
                    &&& eligible(blocks[i], allowed)
                    &&& #[trigger] keys[i] == prev.1
                    &&& blocks[i].id == prev.0
                    &&& forall|j: int|
                        0 <= j < i && eligible(#[trigger] blocks[j], allowed) ==> keys[j] > keys[i]
                };
            assert(keys[i] == cur.1);
        }
    }
}

/// With an allow list `ids`, the match is an opaque block whose id `ids` contains and whose
/// key is no larger than that of any opaque block whose id `ids` contains, the earliest such
/// block on ties; it is one whenever such a block has a key below `F64_MAX_KEY`, and is
/// block 1 otherwise.
pub proof fn lemma_best_match_allowed(blocks: Seq<BlockDef>, keys: Seq<u64>, ids: Seq<u16>)
    requires
        keys.len() == blocks.len(),
    ensures
        ({
            let best = best_upto(blocks, keys, Some(ids), blocks.len() as int);
            &&& forall|i: int|
                0 <= i < blocks.len() && (#[trigger] blocks[i]).opaque && ids.contains(blocks[i].id)
                    ==> best.1 <= keys[i]
            &&& (exists|i: int|
                0 <= i < blocks.len() && (#[trigger] blocks[i]).opaque && ids.contains(blocks[i].id)
                    && keys[i] < F64_MAX_KEY) ==> exists|i: int|
                0 <= i < blocks.len() && (#[trigger] blocks[i]).opaque && ids.contains(blocks[i].id)
                    && blocks[i].id == best.0 && keys[i] == best.1 && forall|j: int|
                    0 <= j < i && (#[trigger] blocks[j]).opaque && ids.contains(blocks[j].id)
                        ==> keys[j] > keys[i]
            &&& !(exists|i: int|
                0 <= i < blocks.len() && (#[trigger] blocks[i]).opaque && ids.contains(blocks[i].id)
                    && keys[i] < F64_MAX_KEY) ==> best.0 == 1
        }),
{
    let n = blocks.len() as int;
    lemma_best_is_least(blocks, keys, Some(ids), n);
    let best = best_upto(blocks, keys, Some(ids), n);
    if exists|i: int|
        0 <= i < blocks.len() && (#[trigger] blocks[i]).opaque && ids.contains(blocks[i].id)
            && keys[i] < F64_MAX_KEY {
        let i = choose|i: int|
            0 <= i < blocks.len() && (#[trigger] blocks[i]).opaque && ids.contains(blocks[i].id)
                && keys[i] < F64_MAX_KEY;
        assert(eligible(blocks[i], Some(ids)));
        assert(best.1 < F64_MAX_KEY);
    } else if best.1 < F64_MAX_KEY {
        let i = choose|i: int|
            {
                &&& 0 <= i < n
                &&& eligible(blocks[i], Some(ids))
                &&& #[trigger] keys[i] == best.1
                &&& blocks[i].id == best.0
                &&& forall|j: int|
                    0 <= j < i && eligible(#[trigger] blocks[j], Some(ids)) ==> keys[j] > keys[i]
            };
        assert(blocks[i].opaque && ids.contains(blocks[i].id) && keys[i] < F64_MAX_KEY);
    }
}

/// With no allow list, the match is an opaque block whose key is no larger than that of any
/// opaque block, the earliest such block on ties; it is one whenever an opaque block has a
/// key below `F64_MAX_KEY`, and is block 1 otherwise.
pub proof fn lemma_best_match_any(blocks: Seq<BlockDef>, keys: Seq<u64>)
    requires
        keys.len() == blocks.len(),
    ensures
        ({
            let best = best_upto(blocks, keys, None, blocks.len() as int);
            &&& forall|i: int|
                0 <= i < blocks.len() && (#[trigger] blocks[i]).opaque ==> best.1 <= keys[i]
            &&& (exists|i: int|
                0 <= i < blocks.len() && (#[trigger] blocks[i]).opaque && keys[i] < F64_MAX_KEY)
                ==> exists|i: int|
                0 <= i < blocks.len() && (#[trigger] blocks[i]).opaque && blocks[i].id == best.0
                    && keys[i] == best.1 && forall|j: int|
                    0 <= j < i && (#[trigger] blocks[j]).opaque ==> keys[j] > keys[i]
            &&& !(exists|i: int|
                0 <= i < blocks.len() && (#[trigger] blocks[i]).opaque && keys[i] < F64_MAX_KEY)
                ==> best.0 == 1
        }),
{
    let n = blocks.len() as int;
    lemma_best_is_least(blocks, keys, None, n);
    let best = best_upto(blocks, keys, None, n);
    if exists|i: int| 0 <= i < blocks.len() && (#[trigger] blocks[i]).opaque && keys[i] < F64_MAX_KEY {
        let i = choose|i: int|
            0 <= i < blocks.len() && (#[trigger] blocks[i]).opaque && keys[i] < F64_MAX_KEY;
        assert(eligible(blocks[i], None));
        assert(best.1 < F64_MAX_KEY);
    } else if best.1 < F64_MAX_KEY {
        let i = choose|i: int|
            {
                &&& 0 <= i < n
                &&& eligible(blocks[i], None)
                &&& #[trigger] keys[i] == best.1
                &&& blocks[i].id == best.0
                &&& forall|j: int| 0 <= j < i && eligible(#[trigger] blocks[j], None) ==> keys[j] > keys[i]
            };
        assert(blocks[i].opaque && keys[i] < F64_MAX_KEY);
    }
}

pub struct BlockDatabase {
    pub blocks: Vec<BlockDef>,
}

fn contains_id(ids: &[u16], id: u16) -> (r: bool)
    ensures
        r == ids@.contains(id),
{
    let mut i: usize = 0;
    while i < ids.len()
        invariant
            i <= ids.len(),
            forall|k: int| 0 <= k < i ==> ids@[k] != id,
        decreases ids.len() - i,
    {
        if ids[i] == id {
            return true;
        }
        i = i + 1;
    }
    false
}

impl BlockDatabase {
    pub fn new() -> (r: BlockDatabase)
        ensures
            r.blocks@ == builtin_table(),
    {
        let blocks = builtin_blocks();
        Self { blocks }
    }

    /// The block closest to a color, among the opaque blocks the allow list admits.
    ///
    /// `keys[i]` orders the perceptual distance between the color and block `i`; the
    /// keys of finite non-negative distances are their IEEE-754 bit patterns, which
    /// order exactly as the distances do. Blocks are scanned in order and a block wins
    /// only with a key strictly smaller than every earlier winner's, so ties go to the
    /// earlier block; with no winner the result is block 1.
    pub fn find_best_match(&self, keys: &[u64], allowed_ids: Option<&[u16]>) -> (r: u16)
        requires
            keys@.len() == self.blocks@.len(),
        ensures
            r == best_upto(
                self.blocks@,
                keys@,
                match allowed_ids {
                    Some(ids) => Some(ids@),
                    None => None,
                },
                self.blocks@.len() as int,
            ).0,
    {
        let ghost allowed = match allowed_ids {
            Some(ids) => Some(ids@),
            None => None,
        };
        let mut best_id: u16 = 1;
        let mut best_key: u64 = F64_MAX_KEY;
        let mut i: usize = 0;
        while i < self.blocks.len()
            invariant
                i <= self.blocks.len(),
                keys@.len() == self.blocks@.len(),
                allowed == match allowed_ids {
                    Some(ids) => Some(ids@),
                    None => None,
                },
                (best_id, best_key) == best_upto(self.blocks@, keys@, allowed, i as int),
            decreases self.blocks.len() - i,
        {
            let block = &self.blocks[i];
            let admitted = match allowed_ids {
                Some(ids) => contains_id(ids, block.id),
                None => true,
            };
            if admitted && block.opaque {
                if keys[i] < best_key {
                    best_key = keys[i];
                    best_id = block.id;
                }
            }
            i = i + 1;
        }
        best_id
    }

    pub fn get_by_id(&self, id: u16) -> (r: Option<&BlockDef>)
        ensures
            r is None <==> lookup(self.blocks@, id) is None,
            r matches Some(b) ==> lookup(self.blocks@, id) == Some(*b),
    {
        let mut i: usize = 0;
        assert(self.blocks@.subrange(0, self.blocks@.len() as int) == self.blocks@);
        while i < self.blocks.len()
            invariant
                i <= self.blocks.len(),
                lookup(self.blocks@, id) == lookup(
                    self.blocks@.subrange(i as int, self.blocks@.len() as int),
                    id,
                ),
            decreases self.blocks.len() - i,
        {
            let ghost rest = self.blocks@.subrange(i as int, self.blocks@.len() as int);
            assert(rest.subrange(1, rest.len() as int) == self.blocks@.subrange(
                i + 1,
                self.blocks@.len() as int,
            ));
            if self.blocks[i].id == id {
                return Some(&self.blocks[i]);
            }
            i = i + 1;
        }
        None
    }

    pub fn get_color(&self, id: u16) -> (r: [u8; 3])
        ensures
            r == color_of(self.blocks@, id),
    {
        match self.get_by_id(id) {
            Some(b) => b.color,
            None => [128, 128, 128],
        }
    }

    /// The Minecraft resource name of block `id`; `minecraft:stone` for an unknown id.
    pub fn mc_name(&self, id: u16) -> (r: &str)
        ensures
            r@ == match lookup(self.blocks@, id) {
                Some(b) => b.name@,
                None => "minecraft:stone"@,
            },
    {
        match self.get_by_id(id) {
            Some(b) => b.name,
            None => "minecraft:stone",
        }
    }
}

impl Default for BlockDatabase {
    fn default() -> (r: BlockDatabase)
        ensures
            r.blocks@ == builtin_table(),
    {
        Self::new()
    }
}

#[derive(Clone, Copy, Debug, PartialEq, Eq, Structural)]
pub enum MinecraftVersion {
    Java118,
    Java120,
    Java121,
}

impl MinecraftVersion {
    /// The `DataVersion` stamped into exported files: that of Java 1.18, 1.20.4 and 1.21.
    pub open spec fn spec_data_version(self) -> i32 {
        match self {
            MinecraftVersion::Java118 => 2860,
            MinecraftVersion::Java120 => 3700,
            MinecraftVersion::Java121 => 3953,
        }
    }

    pub fn data_version(&self) -> (r: i32)
        ensures
            r == self.spec_data_version(),
    {
        match self {
            MinecraftVersion::Java118 => 2860,
            MinecraftVersion::Java120 => 3700,
            MinecraftVersion::Java121 => 3953,
        }
    }

    /// Lowest block height of the world.
    pub fn min_y(&self) -> (r: i32)
        ensures
            r == -64,
    {
        match self {
            MinecraftVersion::Java118 | MinecraftVersion::Java120 | MinecraftVersion::Java121 => -64,
        }
    }

    /// One past the highest block height of the world.
    pub fn max_y(&self) -> (r: i32)
        ensures
            r == 320,
    {
        match self {
            MinecraftVersion::Java118 | MinecraftVersion::Java120 | MinecraftVersion::Java121 => 320,
        }
    }

    /// The name shown for this version.
    pub fn label(&self) -> (r: &'static str)
        ensures
            r@ == match self {
                MinecraftVersion::Java118 => "Java 1.18"@,
                MinecraftVersion::Java120 => "Java 1.20"@,
                MinecraftVersion::Java121 => "Java 1.21"@,
            },
    {
        match self {
            MinecraftVersion::Java118 => "Java 1.18",
            MinecraftVersion::Java120 => "Java 1.20",
            MinecraftVersion::Java121 => "Java 1.21",
        }
    }
}

#[derive(Clone, Copy, Debug, PartialEq, Eq, Structural)]
pub enum PaletteFilter {
    All,
    ConcretesOnly,
    WoolOnly,
    TerraCottaOnly,
    Custom,
}

#[derive(Clone, Debug)]
pub struct PaletteSettings {
    pub version: MinecraftVersion,
    pub filter: PaletteFilter,
    pub custom_ids: Vec<u16>,
}

impl Default for PaletteSettings {
    fn default() -> (r: PaletteSettings)
        ensures
            r.version == MinecraftVersion::Java121,
            r.filter == PaletteFilter::All,
            r.custom_ids@ == Seq::<u16>::empty(),
    {
        PaletteSettings {
            version: MinecraftVersion::Java121,
            filter: PaletteFilter::All,
            custom_ids: Vec::new(),
        }
    }
}

pub const CONCRETE_IDS: [u16; 16] = [
    100, 101, 102, 103, 104, 105, 106, 107, 108, 109, 110, 111, 112, 113, 114, 115,
];

pub const WOOL_IDS: [u16; 16] = [50, 51, 52, 53, 54, 55, 56, 57, 58, 59, 60, 61, 62, 63, 64, 65];

pub const TERRACOTTA_IDS: [u16; 16] = [
    150, 151, 152, 153, 154, 155, 156, 157, 158, 159, 160, 161, 162, 163, 164, 165,
];

/// The sixteen consecutive ids starting at `first`.
pub open spec fn id_run(first: u16) -> Seq<u16> {
    Seq::new(16, |i: int| (first + i) as u16)
}

fn id_run_vec(ids: [u16; 16]) -> (r: Vec<u16>)
    ensures
        r@ == ids@,
{
    let mut v: Vec<u16> = Vec::new();
    let mut i: usize = 0;
    while i < 16
        invariant
            i <= 16,
            v@ == ids@.take(i as int),
        decreases 16 - i,
    {
        v.push(ids[i]);
        i = i + 1;
    }
    assert(ids@.take(16) == ids@);
    v
}

/// The ids a filter admits; `None` admits every block. A custom filter with no ids admits every block.
pub open spec fn allowed_for(settings: PaletteSettings) -> Option<Seq<u16>> {
    match settings.filter {
        PaletteFilter::All => None,
        PaletteFilter::ConcretesOnly => Some(id_run(100)),
        PaletteFilter::WoolOnly => Some(id_run(50)),
        PaletteFilter::TerraCottaOnly => Some(id_run(150)),
        PaletteFilter::Custom => if settings.custom_ids@.len() == 0 {
            None
        } else {
            Some(settings.custom_ids@)
        },
    }
}

pub fn allowed_ids(settings: &PaletteSettings) -> (r: Option<Vec<u16>>)
    ensures
        match r {
            Some(v) => allowed_for(*settings) == Some(v@),
            None => allowed_for(*settings) is None,
        },
{
    match settings.filter {
        PaletteFilter::All => None,
        PaletteFilter::ConcretesOnly => {
            let v = id_run_vec(CONCRETE_IDS);
            assert(v@ =~= id_run(100));
            Some(v)
        },
        PaletteFilter::WoolOnly => {
            let v = id_run_vec(WOOL_IDS);
            assert(v@ =~= id_run(50));
            Some(v)
        },
        PaletteFilter::TerraCottaOnly => {
            let v = id_run_vec(TERRACOTTA_IDS);
            assert(v@ =~= id_run(150));
            Some(v)
        },
        PaletteFilter::Custom => {
            if settings.custom_ids.len() == 0 {
                None
            } else {
                Some(settings.custom_ids.clone())
            }
        },
    }
}

/// A cell after mapping it to block `id`: the block's id and color, occupancy kept.
pub open spec fn mapped_voxel(v: Voxel, blocks: Seq<BlockDef>, id: u16) -> Voxel {
    Voxel { occupied: v.occupied, color: color_of(blocks, id), block_id: id }
}

/// Gives the `k`-th occupied cell (in `iter_occupied` order) block `ids[k]` and that block's color.
pub fn apply_mapping(grid: &mut VoxelGrid, db: &BlockDatabase, ids: &[u16])
    requires
        old(grid).wf(),
        ids@.len() == old(grid).occupied_list().len(),
    ensures
        final(grid).wf(),
        forall|c: IVec3| #[trigger] final(grid).has_chunk(c) == old(grid).has_chunk(c),
        forall|k: int|
            0 <= k < ids@.len() ==> final(grid).cell((#[trigger] old(grid).occupied_list()[k]).0)
                == Some(mapped_voxel(old(grid).occupied_list()[k].1, db.blocks@, ids@[k])),
        forall|p: IVec3| !old(grid).occupied(p) ==> #[trigger] final(grid).cell(p) == old(grid).cell(p),
{
    let coords = grid.iter_occupied();
    let ghost list = old(grid).occupied_list();
    proof {
        old(grid).lemma_occupied_list_exact();
    }
    let mut i: usize = 0;
    while i < coords.len()
        invariant
            grid.wf(),
            coords@ == list,
            list == old(grid).occupied_list(),
            ids@.len() == list.len(),
            i <= coords.len(),
            forall|c: IVec3| #[trigger] grid.has_chunk(c) == old(grid).has_chunk(c),
            forall|k: int|
                0 <= k < list.len() ==> old(grid).occupied((#[trigger] list[k]).0) && old(grid).cell(
                    list[k].0,
                ) == Some(list[k].1),
            forall|k1: int, k2: int|
                0 <= k1 < list.len() && 0 <= k2 < list.len() && k1 != k2 ==> (#[trigger] list[k1]).0
                    != (#[trigger] list[k2]).0,
            forall|k: int|
                0 <= k < i ==> grid.cell((#[trigger] list[k]).0) == Some(
                    mapped_voxel(list[k].1, db.blocks@, ids@[k]),
                ),
            forall|k: int| i <= k < list.len() ==> grid.cell((#[trigger] list[k]).0) == old(grid).cell(list[k].0),
            forall|p: IVec3| !old(grid).occupied(p) ==> #[trigger] grid.cell(p) == old(grid).cell(p),
        decreases coords.len() - i,
    {
        let (pos, v) = coords[i];
        let id = ids[i];
        let color = db.get_color(id);
        let nv = Voxel { occupied: v.occupied, color, block_id: id };
        let ghost before = *grid;
        assert(grid.has_chunk(crate::voxel::chunk_of(pos)));
        grid.set_voxel(pos, nv);
        proof {
            assert forall|k: int| 0 <= k < i + 1 implies grid.cell((#[trigger] list[k]).0) == Some(
                mapped_voxel(list[k].1, db.blocks@, ids@[k]),
            ) by {
                if k < i {
                    assert(list[k].0 != list[i as int].0);
                }
            }
            assert forall|k: int| i + 1 <= k < list.len() implies grid.cell((#[trigger] list[k]).0)
                == old(grid).cell(list[k].0) by {
                assert(list[k].0 != list[i as int].0);
            }
            assert forall|p: IVec3| !old(grid).occupied(p) implies #[trigger] grid.cell(p) == old(
                grid,
            ).cell(p) by {
                if p == pos {
                    assert(old(grid).occupied(pos));
                }
            }
        }
        i = i + 1;
    }
}

/// The blocks of the built-in database, in order.
pub open spec fn builtin_table() -> Seq<BlockDef> {
    seq![
        BlockDef { id: 1, name: "minecraft:stone", display: "Stone", color: [125u8, 125u8, 125u8], opaque: true },
        BlockDef { id: 2, name: "minecraft:cobblestone", display: "Cobblestone", color: [127u8, 121u8, 119u8], opaque: true },
        BlockDef { id: 3, name: "minecraft:granite", display: "Granite", color: [153u8, 114u8, 99u8], opaque: true },
        BlockDef { id: 4, name: "minecraft:diorite", display: "Diorite", color: [188u8, 188u8, 188u8], opaque: true },
        BlockDef { id: 5, name: "minecraft:andesite", display: "Andesite", color: [135u8, 135u8, 135u8], opaque: true },
        BlockDef { id: 6, name: "minecraft:deepslate", display: "Deepslate", color: [83u8, 83u8, 90u8], opaque: true },
        BlockDef { id: 7, name: "minecraft:cobbled_deepslate", display: "Cobbled Deepslate", color: [80u8, 80u8, 87u8], opaque: true },
        BlockDef { id: 8, name: "minecraft:tuff", display: "Tuff", color: [111u8, 112u8, 105u8], opaque: true },
        BlockDef { id: 9, name: "minecraft:calcite", display: "Calcite", color: [223u8, 224u8, 224u8], opaque: true },
        BlockDef { id: 10, name: "minecraft:blackstone", display: "Blackstone", color: [42u8, 35u8, 45u8], opaque: true },
        BlockDef { id: 11, name: "minecraft:basalt", display: "Basalt", color: [85u8, 90u8, 90u8], opaque: true },
        BlockDef { id: 12, name: "minecraft:netherrack", display: "Netherrack", color: [97u8, 41u8, 41u8], opaque: true },
        BlockDef { id: 13, name: "minecraft:soul_sand", display: "Soul Sand", color: [84u8, 65u8, 51u8], opaque: true },
        BlockDef { id: 14, name: "minecraft:end_stone", display: "End Stone", color: [219u8, 222u8, 158u8], opaque: true },
        BlockDef { id: 15, name: "minecraft:obsidian", display: "Obsidian", color: [15u8, 10u8, 25u8], opaque: true },
        BlockDef { id: 20, name: "minecraft:dirt", display: "Dirt", color: [134u8, 96u8, 67u8], opaque: true },
        BlockDef { id: 21, name: "minecraft:grass_block", display: "Grass Block", color: [94u8, 157u8, 52u8], opaque: true },
        BlockDef { id: 22, name: "minecraft:sand", display: "Sand", color: [219u8, 207u8, 163u8], opaque: true },
        BlockDef { id: 23, name: "minecraft:red_sand", display: "Red Sand", color: [190u8, 103u8, 40u8], opaque: true },
        BlockDef { id: 24, name: "minecraft:gravel", display: "Gravel", color: [136u8, 126u8, 126u8], opaque: true },
        BlockDef { id: 25, name: "minecraft:clay", display: "Clay", color: [161u8, 168u8, 182u8], opaque: true },
        BlockDef { id: 26, name: "minecraft:mycelium", display: "Mycelium", color: [111u8, 100u8, 112u8], opaque: true },
        BlockDef { id: 27, name: "minecraft:mud", display: "Mud", color: [60u8, 49u8, 46u8], opaque: true },
        BlockDef { id: 28, name: "minecraft:packed_mud", display: "Packed Mud", color: [108u8, 87u8, 66u8], opaque: true },
        BlockDef { id: 29, name: "minecraft:mud_bricks", display: "Mud Bricks", color: [121u8, 90u8, 72u8], opaque: true },
        BlockDef { id: 40, name: "minecraft:oak_planks", display: "Oak Planks", color: [197u8, 163u8, 97u8], opaque: true },
        BlockDef { id: 41, name: "minecraft:spruce_planks", display: "Spruce Planks", color: [115u8, 84u8, 51u8], opaque: true },
        BlockDef { id: 42, name: "minecraft:birch_planks", display: "Birch Planks", color: [216u8, 207u8, 163u8], opaque: true },
        BlockDef { id: 43, name: "minecraft:jungle_planks", display: "Jungle Planks", color: [160u8, 115u8, 80u8], opaque: true },
        BlockDef { id: 44, name: "minecraft:acacia_planks", display: "Acacia Planks", color: [168u8, 93u8, 52u8], opaque: true },
        BlockDef { id: 45, name: "minecraft:dark_oak_planks", display: "Dark Oak Planks", color: [67u8, 43u8, 20u8], opaque: true },
        BlockDef { id: 46, name: "minecraft:mangrove_planks", display: "Mangrove Planks", color: [118u8, 54u8, 48u8], opaque: true },
        BlockDef { id: 47, name: "minecraft:cherry_planks", display: "Cherry Planks", color: [220u8, 166u8, 161u8], opaque: true },
        BlockDef { id: 48, name: "minecraft:bamboo_planks", display: "Bamboo Planks", color: [197u8, 176u8, 83u8], opaque: true },
        BlockDef { id: 49, name: "minecraft:crimson_planks", display: "Crimson Planks", color: [149u8, 84u8, 110u8], opaque: true },
        BlockDef { id: 50, name: "minecraft:white_wool", display: "White Wool", color: [233u8, 236u8, 236u8], opaque: true },
        BlockDef { id: 51, name: "minecraft:orange_wool", display: "Orange Wool", color: [240u8, 118u8, 19u8], opaque: true },
        BlockDef { id: 52, name: "minecraft:magenta_wool", display: "Magenta Wool", color: [189u8, 68u8, 179u8], opaque: true },
        BlockDef { id: 53, name: "minecraft:light_blue_wool", display: "Light Blue Wool", color: [58u8, 175u8, 217u8], opaque: true },
        BlockDef { id: 54, name: "minecraft:yellow_wool", display: "Yellow Wool", color: [248u8, 197u8, 39u8], opaque: true },
        BlockDef { id: 55, name: "minecraft:lime_wool", display: "Lime Wool", color: [112u8, 185u8, 25u8], opaque: true },
        BlockDef { id: 56, name: "minecraft:pink_wool", display: "Pink Wool", color: [237u8, 141u8, 172u8], opaque: true },
        BlockDef { id: 57, name: "minecraft:gray_wool", display: "Gray Wool", color: [62u8, 68u8, 71u8], opaque: true },
        BlockDef { id: 58, name: "minecraft:light_gray_wool", display: "Light Gray Wool", color: [142u8, 142u8, 134u8], opaque: true },
        BlockDef { id: 59, name: "minecraft:cyan_wool", display: "Cyan Wool", color: [21u8, 137u8, 145u8], opaque: true },
        BlockDef { id: 60, name: "minecraft:purple_wool", display: "Purple Wool", color: [121u8, 42u8, 172u8], opaque: true },
        BlockDef { id: 61, name: "minecraft:blue_wool", display: "Blue Wool", color: [53u8, 57u8, 157u8], opaque: true },
        BlockDef { id: 62, name: "minecraft:brown_wool", display: "Brown Wool", color: [114u8, 71u8, 40u8], opaque: true },
        BlockDef { id: 63, name: "minecraft:green_wool", display: "Green Wool", color: [84u8, 109u8, 27u8], opaque: true },
        BlockDef { id: 64, name: "minecraft:red_wool", display: "Red Wool", color: [160u8, 39u8, 34u8], opaque: true },
        BlockDef { id: 65, name: "minecraft:black_wool", display: "Black Wool", color: [20u8, 21u8, 25u8], opaque: true },
        BlockDef { id: 100, name: "minecraft:white_concrete", display: "White Concrete", color: [207u8, 213u8, 214u8], opaque: true },
        BlockDef { id: 101, name: "minecraft:orange_concrete", display: "Orange Concrete", color: [224u8, 97u8, 0u8], opaque: true },
        BlockDef { id: 102, name: "minecraft:magenta_concrete", display: "Magenta Concrete", color: [169u8, 48u8, 159u8], opaque: true },
        BlockDef { id: 103, name: "minecraft:light_blue_concrete", display: "Light Blue Concrete", color: [36u8, 137u8, 199u8], opaque: true },
        BlockDef { id: 104, name: "minecraft:yellow_concrete", display: "Yellow Concrete", color: [240u8, 175u8, 21u8], opaque: true },
        BlockDef { id: 105, name: "minecraft:lime_concrete", display: "Lime Concrete", color: [94u8, 168u8, 24u8], opaque: true },
        BlockDef { id: 106, name: "minecraft:pink_concrete", display: "Pink Concrete", color: [214u8, 101u8, 143u8], opaque: true },
        BlockDef { id: 107, name: "minecraft:gray_concrete", display: "Gray Concrete", color: [54u8, 57u8, 61u8], opaque: true },
        BlockDef { id: 108, name: "minecraft:light_gray_concrete", display: "Light Gray Concrete", color: [125u8, 125u8, 115u8], opaque: true },
        BlockDef { id: 109, name: "minecraft:cyan_concrete", display: "Cyan Concrete", color: [21u8, 119u8, 136u8], opaque: true },
        BlockDef { id: 110, name: "minecraft:purple_concrete", display: "Purple Concrete", color: [100u8, 31u8, 156u8], opaque: true },
        BlockDef { id: 111, name: "minecraft:blue_concrete", display: "Blue Concrete", color: [44u8, 46u8, 143u8], opaque: true },
        BlockDef { id: 112, name: "minecraft:brown_concrete", display: "Brown Concrete", color: [96u8, 59u8, 31u8], opaque: true },
        BlockDef { id: 113, name: "minecraft:green_concrete", display: "Green Concrete", color: [73u8, 91u8, 36u8], opaque: true },
        BlockDef { id: 114, name: "minecraft:red_concrete", display: "Red Concrete", color: [142u8, 32u8, 32u8], opaque: true },
        BlockDef { id: 115, name: "minecraft:black_concrete", display: "Black Concrete", color: [8u8, 10u8, 15u8], opaque: true },
        BlockDef { id: 150, name: "minecraft:white_terracotta", display: "White Terracotta", color: [209u8, 177u8, 161u8], opaque: true },
        BlockDef { id: 151, name: "minecraft:orange_terracotta", display: "Orange Terracotta", color: [161u8, 83u8, 37u8], opaque: true },
        BlockDef { id: 152, name: "minecraft:magenta_terracotta", display: "Magenta Terracotta", color: [149u8, 88u8, 108u8], opaque: true },
        BlockDef { id: 153, name: "minecraft:light_blue_terracotta", display: "Light Blue Terracotta", color: [113u8, 108u8, 137u8], opaque: true },
        BlockDef { id: 154, name: "minecraft:yellow_terracotta", display: "Yellow Terracotta", color: [186u8, 133u8, 35u8], opaque: true },
        BlockDef { id: 155, name: "minecraft:lime_terracotta", display: "Lime Terracotta", color: [103u8, 117u8, 52u8], opaque: true },
        BlockDef { id: 156, name: "minecraft:pink_terracotta", display: "Pink Terracotta", color: [161u8, 78u8, 78u8], opaque: true },
        BlockDef { id: 157, name: "minecraft:gray_terracotta", display: "Gray Terracotta", color: [57u8, 42u8, 35u8], opaque: true },
        BlockDef { id: 158, name: "minecraft:light_gray_terracotta", display: "Light Gray Terracotta", color: [135u8, 107u8, 98u8], opaque: true },
        BlockDef { id: 159, name: "minecraft:cyan_terracotta", display: "Cyan Terracotta", color: [86u8, 91u8, 91u8], opaque: true },
        BlockDef { id: 160, name: "minecraft:purple_terracotta", display: "Purple Terracotta", color: [118u8, 70u8, 86u8], opaque: true },
        BlockDef { id: 161, name: "minecraft:blue_terracotta", display: "Blue Terracotta", color: [74u8, 59u8, 91u8], opaque: true },
        BlockDef { id: 162, name: "minecraft:brown_terracotta", display: "Brown Terracotta", color: [77u8, 51u8, 35u8], opaque: true },
        BlockDef { id: 163, name: "minecraft:green_terracotta", display: "Green Terracotta", color: [76u8, 83u8, 42u8], opaque: true },
        BlockDef { id: 164, name: "minecraft:red_terracotta", display: "Red Terracotta", color: [143u8, 61u8, 46u8], opaque: true },
        BlockDef { id: 165, name: "minecraft:black_terracotta", display: "Black Terracotta", color: [37u8, 22u8, 16u8], opaque: true },
        BlockDef { id: 170, name: "minecraft:terracotta", display: "Terracotta", color: [152u8, 94u8, 67u8], opaque: true },
        BlockDef { id: 200, name: "minecraft:iron_block", display: "Iron Block", color: [220u8, 220u8, 220u8], opaque: true },
        BlockDef { id: 201, name: "minecraft:gold_block", display: "Gold Block", color: [246u8, 208u8, 61u8], opaque: true },
        BlockDef { id: 202, name: "minecraft:diamond_block", display: "Diamond Block", color: [100u8, 220u8, 214u8], opaque: true },
        BlockDef { id: 203, name: "minecraft:emerald_block", display: "Emerald Block", color: [17u8, 179u8, 64u8], opaque: true },
        BlockDef { id: 204, name: "minecraft:lapis_block", display: "Lapis Block", color: [28u8, 68u8, 142u8], opaque: true },
        BlockDef { id: 205, name: "minecraft:redstone_block", display: "Redstone Block", color: [175u8, 7u8, 7u8], opaque: true },
        BlockDef { id: 206, name: "minecraft:copper_block", display: "Copper Block", color: [196u8, 108u8, 74u8], opaque: true },
        BlockDef { id: 207, name: "minecraft:exposed_copper", display: "Exposed Copper", color: [151u8, 122u8, 95u8], opaque: true },
        BlockDef { id: 208, name: "minecraft:weathered_copper", display: "Weathered Copper", color: [100u8, 153u8, 116u8], opaque: true },
        BlockDef { id: 209, name: "minecraft:oxidized_copper", display: "Oxidized Copper", color: [82u8, 179u8, 139u8], opaque: true },
        BlockDef { id: 210, name: "minecraft:amethyst_block", display: "Amethyst Block", color: [155u8, 105u8, 211u8], opaque: true },
        BlockDef { id: 211, name: "minecraft:netherite_block", display: "Netherite Block", color: [67u8, 61u8, 66u8], opaque: true },
        BlockDef { id: 220, name: "minecraft:snow_block", display: "Snow Block", color: [249u8, 251u8, 254u8], opaque: true },
        BlockDef { id: 221, name: "minecraft:packed_ice", display: "Packed Ice", color: [161u8, 197u8, 229u8], opaque: true },
        BlockDef { id: 222, name: "minecraft:blue_ice", display: "Blue Ice", color: [116u8, 167u8, 228u8], opaque: true },
        BlockDef { id: 230, name: "minecraft:glowstone", display: "Glowstone", color: [207u8, 169u8, 96u8], opaque: true },
        BlockDef { id: 231, name: "minecraft:purpur_block", display: "Purpur Block", color: [169u8, 125u8, 169u8], opaque: true },
        BlockDef { id: 232, name: "minecraft:sponge", display: "Sponge", color: [182u8, 182u8, 55u8], opaque: true },
        BlockDef { id: 233, name: "minecraft:pumpkin", display: "Pumpkin", color: [198u8, 118u8, 24u8], opaque: true },
        BlockDef { id: 234, name: "minecraft:hay_block", display: "Hay Block", color: [175u8, 157u8, 22u8], opaque: true },
        BlockDef { id: 235, name: "minecraft:bookshelf", display: "Bookshelf", color: [197u8, 162u8, 113u8], opaque: true },
        BlockDef { id: 236, name: "minecraft:warped_planks", display: "Warped Planks", color: [43u8, 136u8, 134u8], opaque: true },
        BlockDef { id: 237, name: "minecraft:nether_bricks", display: "Nether Bricks", color: [48u8, 18u8, 18u8], opaque: true },
        BlockDef { id: 238, name: "minecraft:quartz_block", display: "Quartz Block", color: [235u8, 229u8, 222u8], opaque: true },
        BlockDef { id: 239, name: "minecraft:smooth_quartz", display: "Smooth Quartz", color: [234u8, 231u8, 224u8], opaque: true },
        BlockDef { id: 240, name: "minecraft:prismarine", display: "Prismarine", color: [99u8, 171u8, 158u8], opaque: true },
        BlockDef { id: 241, name: "minecraft:dark_prismarine", display: "Dark Prismarine", color: [51u8, 95u8, 78u8], opaque: true },    ]
}

pub fn builtin_blocks() -> (r: Vec<BlockDef>)
    ensures
        r@ == builtin_table(),
{
    vec![
        // --- Stone/Rock ---
        BlockDef { id: 1, name: "minecraft:stone", display: "Stone", color: [125, 125, 125], opaque: true },
        BlockDef { id: 2, name: "minecraft:cobblestone", display: "Cobblestone", color: [127, 121, 119], opaque: true },
        BlockDef { id: 3, name: "minecraft:granite", display: "Granite", color: [153, 114, 99], opaque: true },
        BlockDef { id: 4, name: "minecraft:diorite", display: "Diorite", color: [188, 188, 188], opaque: true },
        BlockDef { id: 5, name: "minecraft:andesite", display: "Andesite", color: [135, 135, 135], opaque: true },
        BlockDef { id: 6, name: "minecraft:deepslate", display: "Deepslate", color: [83, 83, 90], opaque: true },
        BlockDef { id: 7, name: "minecraft:cobbled_deepslate", display: "Cobbled Deepslate", color: [80, 80, 87], opaque: true },
        BlockDef { id: 8, name: "minecraft:tuff", display: "Tuff", color: [111, 112, 105], opaque: true },
        BlockDef { id: 9, name: "minecraft:calcite", display: "Calcite", color: [223, 224, 224], opaque: true },
        BlockDef { id: 10, name: "minecraft:blackstone", display: "Blackstone", color: [42, 35, 45], opaque: true },
        BlockDef { id: 11, name: "minecraft:basalt", display: "Basalt", color: [85, 90, 90], opaque: true },
        BlockDef { id: 12, name: "minecraft:netherrack", display: "Netherrack", color: [97, 41, 41], opaque: true },
        BlockDef { id: 13, name: "minecraft:soul_sand", display: "Soul Sand", color: [84, 65, 51], opaque: true },
        BlockDef { id: 14, name: "minecraft:end_stone", display: "End Stone", color: [219, 222, 158], opaque: true },
        BlockDef { id: 15, name: "minecraft:obsidian", display: "Obsidian", color: [15, 10, 25], opaque: true },

        // --- Dirt/Ground ---
        BlockDef { id: 20, name: "minecraft:dirt", display: "Dirt", color: [134, 96, 67], opaque: true },
        BlockDef { id: 21, name: "minecraft:grass_block", display: "Grass Block", color: [94, 157, 52], opaque: true },
        BlockDef { id: 22, name: "minecraft:sand", display: "Sand", color: [219, 207, 163], opaque: true },
        BlockDef { id: 23, name: "minecraft:red_sand", display: "Red Sand", color: [190, 103, 40], opaque: true },
        BlockDef { id: 24, name: "minecraft:gravel", display: "Gravel", color: [136, 126, 126], opaque: true },
        BlockDef { id: 25, name: "minecraft:clay", display: "Clay", color: [161, 168, 182], opaque: true },
        BlockDef { id: 26, name: "minecraft:mycelium", display: "Mycelium", color: [111, 100, 112], opaque: true },
        BlockDef { id: 27, name: "minecraft:mud", display: "Mud", color: [60, 49, 46], opaque: true },
        BlockDef { id: 28, name: "minecraft:packed_mud", display: "Packed Mud", color: [108, 87, 66], opaque: true },
        BlockDef { id: 29, name: "minecraft:mud_bricks", display: "Mud Bricks", color: [121, 90, 72], opaque: true },

        // --- Wood Planks ---
        BlockDef { id: 40, name: "minecraft:oak_planks", display: "Oak Planks", color: [197, 163, 97], opaque: true },
        BlockDef { id: 41, name: "minecraft:spruce_planks", display: "Spruce Planks", color: [115, 84, 51], opaque: true },
        BlockDef { id: 42, name: "minecraft:birch_planks", display: "Birch Planks", color: [216, 207, 163], opaque: true },
        BlockDef { id: 43, name: "minecraft:jungle_planks", display: "Jungle Planks", color: [160, 115, 80], opaque: true },
        BlockDef { id: 44, name: "minecraft:acacia_planks", display: "Acacia Planks", color: [168, 93, 52], opaque: true },
        BlockDef { id: 45, name: "minecraft:dark_oak_planks", display: "Dark Oak Planks", color: [67, 43, 20], opaque: true },
        BlockDef { id: 46, name: "minecraft:mangrove_planks", display: "Mangrove Planks", color: [118, 54, 48], opaque: true },
        BlockDef { id: 47, name: "minecraft:cherry_planks", display: "Cherry Planks", color: [220, 166, 161], opaque: true },
        BlockDef { id: 48, name: "minecraft:bamboo_planks", display: "Bamboo Planks", color: [197, 176, 83], opaque: true },
        BlockDef { id: 49, name: "minecraft:crimson_planks", display: "Crimson Planks", color: [149, 84, 110], opaque: true },

        // --- Wool ---
        BlockDef { id: 50, name: "minecraft:white_wool", display: "White Wool", color: [233, 236, 236], opaque: true },
        BlockDef { id: 51, name: "minecraft:orange_wool", display: "Orange Wool", color: [240, 118, 19], opaque: true },
        BlockDef { id: 52, name: "minecraft:magenta_wool", display: "Magenta Wool", color: [189, 68, 179], opaque: true },
        BlockDef { id: 53, name: "minecraft:light_blue_wool", display: "Light Blue Wool", color: [58, 175, 217], opaque: true },
        BlockDef { id: 54, name: "minecraft:yellow_wool", display: "Yellow Wool", color: [248, 197, 39], opaque: true },
        BlockDef { id: 55, name: "minecraft:lime_wool", display: "Lime Wool", color: [112, 185, 25], opaque: true },
        BlockDef { id: 56, name: "minecraft:pink_wool", display: "Pink Wool", color: [237, 141, 172], opaque: true },
        BlockDef { id: 57, name: "minecraft:gray_wool", display: "Gray Wool", color: [62, 68, 71], opaque: true },
        BlockDef { id: 58, name: "minecraft:light_gray_wool", display: "Light Gray Wool", color: [142, 142, 134], opaque: true },
        BlockDef { id: 59, name: "minecraft:cyan_wool", display: "Cyan Wool", color: [21, 137, 145], opaque: true },
        BlockDef { id: 60, name: "minecraft:purple_wool", display: "Purple Wool", color: [121, 42, 172], opaque: true },
        BlockDef { id: 61, name: "minecraft:blue_wool", display: "Blue Wool", color: [53, 57, 157], opaque: true },
        BlockDef { id: 62, name: "minecraft:brown_wool", display: "Brown Wool", color: [114, 71, 40], opaque: true },
        BlockDef { id: 63, name: "minecraft:green_wool", display: "Green Wool", color: [84, 109, 27], opaque: true },
        BlockDef { id: 64, name: "minecraft:red_wool", display: "Red Wool", color: [160, 39, 34], opaque: true },
        BlockDef { id: 65, name: "minecraft:black_wool", display: "Black Wool", color: [20, 21, 25], opaque: true },

        // --- Concrete ---
        BlockDef { id: 100, name: "minecraft:white_concrete", display: "White Concrete", color: [207, 213, 214], opaque: true },
        BlockDef { id: 101, name: "minecraft:orange_concrete", display: "Orange Concrete", color: [224, 97, 0], opaque: true },
        BlockDef { id: 102, name: "minecraft:magenta_concrete", display: "Magenta Concrete", color: [169, 48, 159], opaque: true },
        BlockDef { id: 103, name: "minecraft:light_blue_concrete", display: "Light Blue Concrete", color: [36, 137, 199], opaque: true },
        BlockDef { id: 104, name: "minecraft:yellow_concrete", display: "Yellow Concrete", color: [240, 175, 21], opaque: true },
        BlockDef { id: 105, name: "minecraft:lime_concrete", display: "Lime Concrete", color: [94, 168, 24], opaque: true },
        BlockDef { id: 106, name: "minecraft:pink_concrete", display: "Pink Concrete", color: [214, 101, 143], opaque: true },
        BlockDef { id: 107, name: "minecraft:gray_concrete", display: "Gray Concrete", color: [54, 57, 61], opaque: true },
        BlockDef { id: 108, name: "minecraft:light_gray_concrete", display: "Light Gray Concrete", color: [125, 125, 115], opaque: true },
        BlockDef { id: 109, name: "minecraft:cyan_concrete", display: "Cyan Concrete", color: [21, 119, 136], opaque: true },
        BlockDef { id: 110, name: "minecraft:purple_concrete", display: "Purple Concrete", color: [100, 31, 156], opaque: true },
        BlockDef { id: 111, name: "minecraft:blue_concrete", display: "Blue Concrete", color: [44, 46, 143], opaque: true },
        BlockDef { id: 112, name: "minecraft:brown_concrete", display: "Brown Concrete", color: [96, 59, 31], opaque: true },
        BlockDef { id: 113, name: "minecraft:green_concrete", display: "Green Concrete", color: [73, 91, 36], opaque: true },
        BlockDef { id: 114, name: "minecraft:red_concrete", display: "Red Concrete", color: [142, 32, 32], opaque: true },
        BlockDef { id: 115, name: "minecraft:black_concrete", display: "Black Concrete", color: [8, 10, 15], opaque: true },

        // --- Terracotta ---
        BlockDef { id: 150, name: "minecraft:white_terracotta", display: "White Terracotta", color: [209, 177, 161], opaque: true },
        BlockDef { id: 151, name: "minecraft:orange_terracotta", display: "Orange Terracotta", color: [161, 83, 37], opaque: true },
        BlockDef { id: 152, name: "minecraft:magenta_terracotta", display: "Magenta Terracotta", color: [149, 88, 108], opaque: true },
        BlockDef { id: 153, name: "minecraft:light_blue_terracotta", display: "Light Blue Terracotta", color: [113, 108, 137], opaque: true },
        BlockDef { id: 154, name: "minecraft:yellow_terracotta", display: "Yellow Terracotta", color: [186, 133, 35], opaque: true },
        BlockDef { id: 155, name: "minecraft:lime_terracotta", display: "Lime Terracotta", color: [103, 117, 52], opaque: true },
        BlockDef { id: 156, name: "minecraft:pink_terracotta", display: "Pink Terracotta", color: [161, 78, 78], opaque: true },
        BlockDef { id: 157, name: "minecraft:gray_terracotta", display: "Gray Terracotta", color: [57, 42, 35], opaque: true },
        BlockDef { id: 158, name: "minecraft:light_gray_terracotta", display: "Light Gray Terracotta", color: [135, 107, 98], opaque: true },
        BlockDef { id: 159, name: "minecraft:cyan_terracotta", display: "Cyan Terracotta", color: [86, 91, 91], opaque: true },
        BlockDef { id: 160, name: "minecraft:purple_terracotta", display: "Purple Terracotta", color: [118, 70, 86], opaque: true },
        BlockDef { id: 161, name: "minecraft:blue_terracotta", display: "Blue Terracotta", color: [74, 59, 91], opaque: true },
        BlockDef { id: 162, name: "minecraft:brown_terracotta", display: "Brown Terracotta", color: [77, 51, 35], opaque: true },
        BlockDef { id: 163, name: "minecraft:green_terracotta", display: "Green Terracotta", color: [76, 83, 42], opaque: true },
        BlockDef { id: 164, name: "minecraft:red_terracotta", display: "Red Terracotta", color: [143, 61, 46], opaque: true },
        BlockDef { id: 165, name: "minecraft:black_terracotta", display: "Black Terracotta", color: [37, 22, 16], opaque: true },

        // --- Glazed Terracotta (selected) ---
        BlockDef { id: 170, name: "minecraft:terracotta", display: "Terracotta", color: [152, 94, 67], opaque: true },

        // --- Metals/Special ---
        BlockDef { id: 200, name: "minecraft:iron_block", display: "Iron Block", color: [220, 220, 220], opaque: true },
        BlockDef { id: 201, name: "minecraft:gold_block", display: "Gold Block", color: [246, 208, 61], opaque: true },
        BlockDef { id: 202, name: "minecraft:diamond_block", display: "Diamond Block", color: [100, 220, 214], opaque: true },
        BlockDef { id: 203, name: "minecraft:emerald_block", display: "Emerald Block", color: [17, 179, 64], opaque: true },
        BlockDef { id: 204, name: "minecraft:lapis_block", display: "Lapis Block", color: [28, 68, 142], opaque: true },
        BlockDef { id: 205, name: "minecraft:redstone_block", display: "Redstone Block", color: [175, 7, 7], opaque: true },
        BlockDef { id: 206, name: "minecraft:copper_block", display: "Copper Block", color: [196, 108, 74], opaque: true },
        BlockDef { id: 207, name: "minecraft:exposed_copper", display: "Exposed Copper", color: [151, 122, 95], opaque: true },
        BlockDef { id: 208, name: "minecraft:weathered_copper", display: "Weathered Copper", color: [100, 153, 116], opaque: true },
        BlockDef { id: 209, name: "minecraft:oxidized_copper", display: "Oxidized Copper", color: [82, 179, 139], opaque: true },
        BlockDef { id: 210, name: "minecraft:amethyst_block", display: "Amethyst Block", color: [155, 105, 211], opaque: true },
        BlockDef { id: 211, name: "minecraft:netherite_block", display: "Netherite Block", color: [67, 61, 66], opaque: true },

        // --- Snow/Ice ---
        BlockDef { id: 220, name: "minecraft:snow_block", display: "Snow Block", color: [249, 251, 254], opaque: true },
        BlockDef { id: 221, name: "minecraft:packed_ice", display: "Packed Ice", color: [161, 197, 229], opaque: true },
        BlockDef { id: 222, name: "minecraft:blue_ice", display: "Blue Ice", color: [116, 167, 228], opaque: true },

        // --- Special ---
        BlockDef { id: 230, name: "minecraft:glowstone", display: "Glowstone", color: [207, 169, 96], opaque: true },
        BlockDef { id: 231, name: "minecraft:purpur_block", display: "Purpur Block", color: [169, 125, 169], opaque: true },
        BlockDef { id: 232, name: "minecraft:sponge", display: "Sponge", color: [182, 182, 55], opaque: true },
        BlockDef { id: 233, name: "minecraft:pumpkin", display: "Pumpkin", color: [198, 118, 24], opaque: true },
        BlockDef { id: 234, name: "minecraft:hay_block", display: "Hay Block", color: [175, 157, 22], opaque: true },
        BlockDef { id: 235, name: "minecraft:bookshelf", display: "Bookshelf", color: [197, 162, 113], opaque: true },
        BlockDef { id: 236, name: "minecraft:warped_planks", display: "Warped Planks", color: [43, 136, 134], opaque: true },
        BlockDef { id: 237, name: "minecraft:nether_bricks", display: "Nether Bricks", color: [48, 18, 18], opaque: true },
        BlockDef { id: 238, name: "minecraft:quartz_block", display: "Quartz Block", color: [235, 229, 222], opaque: true },
        BlockDef { id: 239, name: "minecraft:smooth_quartz", display: "Smooth Quartz", color: [234, 231, 224], opaque: true },
        BlockDef { id: 240, name: "minecraft:prismarine", display: "Prismarine", color: [99, 171, 158], opaque: true },
        BlockDef { id: 241, name: "minecraft:dark_prismarine", display: "Dark Prismarine", color: [51, 95, 78], opaque: true },
    ]
}

} // verus!
