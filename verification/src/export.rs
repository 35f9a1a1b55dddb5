//! Structure export: Sponge schematics (`.schem`) and region files (`.mca`).
use vstd::prelude::*;
use vstd::string::*;
use vstd::utf8::encode_utf8;

use crate::compress::{gzip_compress, gzip_of};
use crate::geom::IVec3;
use crate::nbt::{
    named_byte_array, named_compound, named_int, named_int_array, named_string, CompoundWriter, NbtWriter, concat,
    lemma_concat_push,
};
use crate::nbt::{push_varint, varint, varints};
use crate::palette::{lookup, BlockDatabase, BlockDef, MinecraftVersion};
use crate::voxel::{
    axis_of, lemma_max_on_axis, lemma_min_on_axis, max_on_axis, min_on_axis, Voxel, VoxelGrid,
};

verus! {

#[derive(Clone, Copy, Debug)]
pub struct ExportSettings {
    pub version: MinecraftVersion,
    /// Placement offset: added to every cell for region export, and recorded as the
    /// schematic's `Offset`.
    pub offset: IVec3,
}

impl Default for ExportSettings {
    fn default() -> (r: ExportSettings)
        ensures
            r.version == MinecraftVersion::Java121,
            r.offset == (IVec3 { x: 0, y: 0, z: 0 }),
    {
        ExportSettings { version: MinecraftVersion::Java121, offset: IVec3 { x: 0, y: 0, z: 0 } }
    }
}

#[derive(Clone, Copy, Debug, PartialEq, Eq, Structural)]
pub enum ExportError {
    /// The grid holds no chunk.
    EmptyGrid,
    /// A region file would need sector numbers beyond 32 bits.
    RegionTooLarge,
}

// ---------------------------------------------------------------------------
// Block names and palettes
// ---------------------------------------------------------------------------

/// The resource name that block `id` is exported as (see `BlockDatabase::mc_name`).
pub open spec fn name_of(blocks: Seq<BlockDef>, id: u16) -> Seq<char> {
    match lookup(blocks, id) {
        Some(b) => b.name@,
        None => "minecraft:stone"@,
    }
}

pub open spec fn air_name() -> Seq<char> {
    "minecraft:air"@
}

/// Appends `name` unless the palette holds it already.
pub open spec fn add_name(pal: Seq<Seq<char>>, name: Seq<char>) -> Seq<Seq<char>> {
    if pal.contains(name) {
        pal
    } else {
        pal.push(name)
    }
}

/// The palette after the first `k` names: air first, then each new name in order of first use.
pub open spec fn palette_upto(names: Seq<Seq<char>>, k: int) -> Seq<Seq<char>>
    decreases k,
{
    if k <= 0 {
        seq![air_name()]
    } else {
        add_name(palette_upto(names, k - 1), names[k - 1])
    }
}

pub proof fn lemma_palette_upto(names: Seq<Seq<char>>, k: int)
    requires
        0 <= k <= names.len(),
    ensures
        palette_upto(names, k).no_duplicates(),
        palette_upto(names, k).len() >= 1,
        palette_upto(names, k)[0] == air_name(),
        palette_upto(names, k).len() <= k + 1,
        forall|j: int| 0 <= j < k ==> palette_upto(names, k).contains(#[trigger] names[j]),
    decreases k,
{
    if k > 0 {
        lemma_palette_upto(names, k - 1);
        let prev = palette_upto(names, k - 1);
        assert forall|j: int| 0 <= j < k implies palette_upto(names, k).contains(#[trigger] names[j]) by {
            if j < k - 1 {
                let i = choose|i: int| 0 <= i < prev.len() && prev[i] == names[j];
                assert(palette_upto(names, k)[i] == names[j]);
            } else if !prev.contains(names[j]) {
                assert(palette_upto(names, k)[prev.len() as int] == names[j]);
            }
        }
    }
}

/// The palette only grows: an earlier palette is a prefix of a later one.
pub proof fn lemma_palette_prefix(names: Seq<Seq<char>>, k1: int, k2: int)
    requires
        0 <= k1 <= k2 <= names.len(),
    ensures
        palette_upto(names, k1).len() <= palette_upto(names, k2).len(),
        forall|i: int|
            0 <= i < palette_upto(names, k1).len() ==> #[trigger] palette_upto(names, k2)[i]
                == palette_upto(names, k1)[i],
    decreases k2 - k1,
{
    if k1 < k2 {
        lemma_palette_prefix(names, k1, k2 - 1);
    }
}

/// Index of `name` in a duplicate-free palette that holds it.
pub proof fn lemma_index_of_unique(pal: Seq<Seq<char>>, name: Seq<char>, i: int)
    requires
        pal.no_duplicates(),
        0 <= i < pal.len(),
        pal[i] == name,
    ensures
        pal.index_of(name) == i,
{
    let j = pal.index_of(name);
    assert(pal.contains(name));
    assert(pal[j] == name);
}

/// Linear search for `name` in the palette.
fn palette_find(pal: &Vec<String>, name: &String) -> (r: Option<usize>)
    ensures
        r matches Some(i) ==> i < pal@.len() && pal@[i as int]@ == name@,
        r is None ==> forall|i: int| 0 <= i < pal@.len() ==> (#[trigger] pal@[i])@ != name@,
{
    let mut i: usize = 0;
    while i < pal.len()
        invariant
            i <= pal.len(),
            forall|j: int| 0 <= j < i ==> (#[trigger] pal@[j])@ != name@,
        decreases pal.len() - i,
    {
        if pal[i] == *name {
            return Some(i);
        }
        i = i + 1;
    }
    None
}

pub open spec fn views(pal: Seq<String>) -> Seq<Seq<char>> {
    pal.map_values(|s: String| s@)
}

/// Adds `name` to the palette unless present; returns its index.
pub(crate) fn palette_insert(pal: &mut Vec<String>, name: String) -> (r: usize)
    requires
        views(old(pal)@).no_duplicates(),
        old(pal)@.len() < usize::MAX,
    ensures
        views(final(pal)@) == add_name(views(old(pal)@), name@),
        views(final(pal)@).no_duplicates(),
        r < final(pal)@.len(),
        views(final(pal)@).index_of(name@) == r,
{
    proof {
        assert forall|i: int| 0 <= i < old(pal)@.len() implies #[trigger] views(old(pal)@)[i]
            == old(pal)@[i]@ by {}
    }
    match palette_find(pal, &name) {
        Some(i) => {
            proof {
                assert(views(pal@)[i as int] == name@);
                lemma_index_of_unique(views(pal@), name@, i as int);
            }
            i
        },
        None => {
            let i = pal.len();
            let ghost nm = name@;
            proof {
                assert(!views(pal@).contains(nm));
            }
            pal.push(name);
            proof {
                assert(views(pal@) =~= views(old(pal)@).push(nm));
                assert(views(pal@)[i as int] == nm);
                assert forall|a: int, b: int|
                    0 <= a < views(pal@).len() && 0 <= b < views(pal@).len() && a != b implies views(
                    pal@,
                )[a] != views(pal@)[b] by {
                    if a == i as int {
                        assert(views(old(pal)@)[b] == views(pal@)[b]);
                    } else if b == i as int {
                        assert(views(old(pal)@)[a] == views(pal@)[a]);
                    } else {
                        assert(views(old(pal)@)[a] == views(pal@)[a]);
                        assert(views(old(pal)@)[b] == views(pal@)[b]);
                    }
                }
                lemma_index_of_unique(views(pal@), nm, i as int);
            }
            i
        },
    }
}

/// Copies a byte slice.
pub fn pack_to_bytes(data: &[u8]) -> (r: Vec<u8>)
    ensures
        r@ == data@,
{
    let mut out: Vec<u8> = Vec::new();
    crate::nbt::push_bytes(&mut out, data);
    out
}

// ---------------------------------------------------------------------------
// .schem (Sponge schematic, version 3)
// ---------------------------------------------------------------------------

/// Least corner of the occupied cells.
pub open spec fn grid_min(grid: VoxelGrid) -> IVec3 {
    IVec3 {
        x: min_on_axis(grid.occupied_list(), 0) as i32,
        y: min_on_axis(grid.occupied_list(), 1) as i32,
        z: min_on_axis(grid.occupied_list(), 2) as i32,
    }
}

/// Greatest corner of the occupied cells.
pub open spec fn grid_max(grid: VoxelGrid) -> IVec3 {
    IVec3 {
        x: max_on_axis(grid.occupied_list(), 0) as i32,
        y: max_on_axis(grid.occupied_list(), 1) as i32,
        z: max_on_axis(grid.occupied_list(), 2) as i32,
    }
}

/// Extent of the occupied cells on each axis (as mathematical integers).
pub open spec fn extent_x(grid: VoxelGrid) -> int {
    grid_max(grid).x - grid_min(grid).x + 1
}

pub open spec fn extent_y(grid: VoxelGrid) -> int {
    grid_max(grid).y - grid_min(grid).y + 1
}

pub open spec fn extent_z(grid: VoxelGrid) -> int {
    grid_max(grid).z - grid_min(grid).z + 1
}

/// The grid's extent fits the schematic's arithmetic: each side fits in `i32` and the
/// block array has at most 2^31 entries.
pub open spec fn schem_fits(grid: VoxelGrid) -> bool {
    grid.chunks.len() > 0 ==> {
        &&& 1 <= extent_x(grid) <= i32::MAX
        &&& 1 <= extent_y(grid) <= i32::MAX
        &&& 1 <= extent_z(grid) <= i32::MAX
        &&& extent_x(grid) * extent_y(grid) * extent_z(grid) <= 0x8000_0000
    }
}

/// Position of a cell in the schematic block array: y-major, then z, then x.
pub open spec fn schem_index(p: IVec3, min: IVec3, w: int, d: int) -> int {
    (p.y - min.y) * w * d + (p.z - min.z) * w + (p.x - min.x)
}

/// Names of the occupied cells, in enumeration order.
pub open spec fn cell_names(grid: VoxelGrid, blocks: Seq<BlockDef>) -> Seq<Seq<char>> {
    grid.occupied_list().map_values(|e: (IVec3, Voxel)| name_of(blocks, e.1.block_id))
}

/// The block array after placing the first `k` occupied cells.
pub open spec fn schem_blocks_upto(grid: VoxelGrid, blocks: Seq<BlockDef>, k: int) -> Seq<u32>
    decreases k,
{
    if k <= 0 {
        Seq::new((extent_x(grid) * extent_y(grid) * extent_z(grid)) as nat, |i: int| 0u32)
    } else {
        let names = cell_names(grid, blocks);
        schem_blocks_upto(grid, blocks, k - 1).update(
            schem_index(grid.occupied_list()[k - 1].0, grid_min(grid), extent_x(grid), extent_z(grid)),
            palette_upto(names, k).index_of(names[k - 1]) as u32,
        )
    }
}

pub open spec fn schem_palette(grid: VoxelGrid, blocks: Seq<BlockDef>) -> Seq<Seq<char>> {
    palette_upto(cell_names(grid, blocks), grid.occupied_list().len() as int)
}

/// The palette compound's children: each name mapped to its index.
pub open spec fn palette_entries(pal: Seq<Seq<char>>) -> Seq<u8> {
    concat(Seq::new(pal.len(), |i: int| named_int(encode_utf8(pal[i]), i as i32)))
}

/// The uncompressed NBT document of a schematic.
pub open spec fn schem_nbt(
    grid: VoxelGrid,
    blocks: Seq<BlockDef>,
    version: MinecraftVersion,
    offset: IVec3,
) -> Seq<u8> {
    let pal = schem_palette(grid, blocks);
    let data = schem_blocks_upto(grid, blocks, grid.occupied_list().len() as int);
    named_compound(
        "Schematic".spec_bytes(),
        named_int("Version".spec_bytes(), 3) + named_int(
            "DataVersion".spec_bytes(),
            version.spec_data_version(),
        ) + named_compound(
            "Metadata".spec_bytes(),
            named_string("Name".spec_bytes(), "Chunky Export".spec_bytes()),
        ) + named_int_array("Offset".spec_bytes(), seq![offset.x, offset.y, offset.z])
            + named_compound(
            "Blocks".spec_bytes(),
            named_int("Width".spec_bytes(), extent_x(grid) as i32) + named_int(
                "Height".spec_bytes(),
                extent_y(grid) as i32,
            ) + named_int("Length".spec_bytes(), extent_z(grid) as i32) + named_compound(
                "Palette".spec_bytes(),
                palette_entries(pal),
            ) + named_byte_array("Data".spec_bytes(), varints(data)),
        ),
    )
}

fn write_palette_entries(out: &mut Vec<u8>, pal: &Vec<String>)
    ensures
        final(out)@ == old(out)@ + palette_entries(views(pal@)),
{
    let ghost f = |i: int| named_int(encode_utf8(views(pal@)[i]), i as i32);
    let ghost target = *final(out);
    let mut cw = CompoundWriter::new(out);
    let mut i: usize = 0;
    while i < pal.len()
        invariant
            i <= pal.len(),
            f == (|i: int| named_int(encode_utf8(views(pal@)[i]), i as i32)),
            cw.out@ == old(out)@ + concat(Seq::new(i as nat, f)),
            *final(cw.out) == target,
        decreases pal.len() - i,
    {
        cw.int_tag(pal[i].as_str(), i as i32);
        proof {
            assert(Seq::new((i + 1) as nat, f) == Seq::new(i as nat, f).push(f(i as int)));
            lemma_concat_push(Seq::new(i as nat, f), f(i as int));
            assert(views(pal@)[i as int] == pal@[i as int]@);
        }
        i = i + 1;
    }
    proof {
        assert(Seq::new(pal@.len(), f) =~= Seq::new(views(pal@).len(), f));
    }
    assert(has_resolved(cw));
}

/// The corners that `bounds_voxel` reports match `grid_min` / `grid_max`, and the extents.
pub open spec fn schem_frame(grid: VoxelGrid, min: IVec3, max: IVec3, w: usize, h: usize, d: usize) -> bool {
    let list = grid.occupied_list();
    &&& min.x == min_on_axis(list, 0)
    &&& min.y == min_on_axis(list, 1)
    &&& min.z == min_on_axis(list, 2)
    &&& max.x == max_on_axis(list, 0)
    &&& max.y == max_on_axis(list, 1)
    &&& max.z == max_on_axis(list, 2)
    &&& w == extent_x(grid)
    &&& h == extent_y(grid)
    &&& d == extent_z(grid)
}

/// Builds the palette and the block index array of a schematic.
fn schem_block_array(
    grid: &VoxelGrid,
    db: &BlockDatabase,
    min: IVec3,
    max: IVec3,
    w: usize,
    h: usize,
    d: usize,
) -> (r: (Vec<String>, Vec<u32>))
    requires
        grid.wf(),
        grid.chunks.len() > 0,
        schem_fits(*grid),
        schem_frame(*grid, min, max, w, h, d),
    ensures
        views(r.0@) == schem_palette(*grid, db.blocks@),
        r.0@.len() >= 1,
        r.0@.len() <= 0x8000_0001,
        r.1@ == schem_blocks_upto(*grid, db.blocks@, grid.occupied_list().len() as int),
        forall|j: int| 0 <= j < r.1@.len() ==> (#[trigger] r.1@[j] as int) < r.0@.len(),
{
    let ghost list = grid.occupied_list();
    let ghost names = cell_names(*grid, db.blocks@);
    proof {
        assert(w * d <= w * h * d && w * h <= w * h * d) by (nonlinear_arith)
            requires
                h >= 1,
                d >= 1,
                w >= 1,
        ;
    }
    let n = w * h * d;
    let mut palette: Vec<String> = Vec::new();
    palette.push("minecraft:air".to_owned());
    let mut blocks: Vec<u32> = Vec::new();
    let mut t: usize = 0;
    while t < n
        invariant
            t <= n,
            blocks@.len() == t,
            forall|j: int| 0 <= j < t ==> blocks@[j] == 0u32,
        decreases n - t,
    {
        blocks.push(0);
        t = t + 1;
    }
    let cells = grid.iter_occupied();
    proof {
        grid.lemma_occupied_list_exact();
        lemma_schem_count(*grid);
        assert(views(palette@) =~= seq![air_name()]);
        assert(blocks@ =~= schem_blocks_upto(*grid, db.blocks@, 0));
        crate::voxel::lemma_min_on_axis(list, 0);
        crate::voxel::lemma_min_on_axis(list, 1);
        crate::voxel::lemma_min_on_axis(list, 2);
        crate::voxel::lemma_max_on_axis(list, 0);
        crate::voxel::lemma_max_on_axis(list, 1);
        crate::voxel::lemma_max_on_axis(list, 2);
    }
    let mut k: usize = 0;
    while k < cells.len()
        invariant
            grid.wf(),
            schem_fits(*grid),
            grid.chunks.len() > 0,
            cells@ == list,
            list == grid.occupied_list(),
            names == cell_names(*grid, db.blocks@),
            schem_frame(*grid, min, max, w, h, d),
            n == w * h * d,
            n <= 0x8000_0000,
            list.len() <= 0x8000_0000,
            k <= cells.len(),
            views(palette@) == palette_upto(names, k as int),
            views(palette@).no_duplicates(),
            palette@.len() <= k + 1,
            palette@.len() >= 1,
            blocks@ == schem_blocks_upto(*grid, db.blocks@, k as int),
            blocks@.len() == n,
            forall|j: int| 0 <= j < blocks@.len() ==> (#[trigger] blocks@[j] as int) < palette@.len(),
            forall|j: int|
                0 <= j < list.len() ==> min_on_axis(list, 0) <= #[trigger] list[j].0.x <= max_on_axis(
                    list,
                    0,
                ) && min_on_axis(list, 1) <= list[j].0.y <= max_on_axis(list, 1) && min_on_axis(
                    list,
                    2,
                ) <= list[j].0.z <= max_on_axis(list, 2) && list[j].1.occupied,
        decreases cells.len() - k,
    {
        let (pos, voxel) = cells[k];
        assert(min_on_axis(list, 0) <= list[k as int].0.x <= max_on_axis(list, 0));
        if !voxel.occupied {
            assert(list[k as int].1.occupied);
        }
        let name = db.mc_name(voxel.block_id).to_owned();
        proof {
            lemma_palette_upto(names, k as int);
            assert(names[k as int] == name@);
        }
        let idx = palette_insert(&mut palette, name);
        let lx = (pos.x - min.x) as usize;
        let ly = (pos.y - min.y) as usize;
        let lz = (pos.z - min.z) as usize;
        proof {
            assert(ly * w * d + lz * w + lx < n) by (nonlinear_arith)
                requires
                    lx < w,
                    ly < h,
                    lz < d,
                    n == w * h * d,
            ;
            assert(ly * w <= ly * w * d && lz * w <= ly * w * d + lz * w) by (nonlinear_arith)
                requires
                    d >= 1,
            ;
        }
        let slot = ly * w * d + lz * w + lx;
        proof {
            assert(slot == schem_index(pos, min, w as int, d as int));
            lemma_palette_upto(names, k + 1);
        }
        blocks.set(slot, idx as u32);
        k = k + 1;
    }
    (palette, blocks)
}

/// The schematic's block data: each index as a varint.
fn schem_varint_data(blocks: &Vec<u32>) -> (r: Vec<u8>)
    ensures
        r@ == varints(blocks@),
{
    let ghost f = |v: u32| varint(v as nat);
    let mut out: Vec<u8> = Vec::new();
    let mut i: usize = 0;
    while i < blocks.len()
        invariant
            i <= blocks.len(),
            f == (|v: u32| varint(v as nat)),
            out@ == concat(blocks@.take(i as int).map_values(f)),
        decreases blocks.len() - i,
    {
        push_varint(&mut out, blocks[i]);
        proof {
            assert(blocks@.take(i + 1).map_values(f) == blocks@.take(i as int).map_values(f).push(
                f(blocks@[i as int]),
            ));
            lemma_concat_push(blocks@.take(i as int).map_values(f), f(blocks@[i as int]));
        }
        i = i + 1;
    }
    assert(blocks@.take(blocks.len() as int) == blocks@);
    out
}

/// The children of the schematic's `Blocks` compound.
fn schem_blocks_body(sx: i32, sy: i32, sz: i32, pal_body: &Vec<u8>, data: &Vec<u8>) -> (r: Vec<u8>)
    ensures
        r@ == named_int("Width".spec_bytes(), sx) + named_int("Height".spec_bytes(), sy) + named_int(
            "Length".spec_bytes(),
            sz,
        ) + named_compound("Palette".spec_bytes(), pal_body@) + named_byte_array(
            "Data".spec_bytes(),
            data@,
        ),
{
    let mut body: Vec<u8> = Vec::new();
    {
        let mut b = CompoundWriter::new(&mut body);
        b.int_tag("Width", sx);
        b.int_tag("Height", sy);
        b.int_tag("Length", sz);
        b.compound("Palette", pal_body.as_slice());
        b.byte_array("Data", data.as_slice());
        assert(has_resolved(b));
    }
    assert(body@ =~= named_int("Width".spec_bytes(), sx) + named_int("Height".spec_bytes(), sy)
        + named_int("Length".spec_bytes(), sz) + named_compound("Palette".spec_bytes(), pal_body@)
        + named_byte_array("Data".spec_bytes(), data@));
    body
}

/// The whole schematic document around the children of `Blocks`.
fn schem_root(version: MinecraftVersion, offset: IVec3, blocks_body: &Vec<u8>) -> (r: Vec<u8>)
    ensures
        r@ == named_compound(
            "Schematic".spec_bytes(),
            named_int("Version".spec_bytes(), 3) + named_int(
                "DataVersion".spec_bytes(),
                version.spec_data_version(),
            ) + named_compound(
                "Metadata".spec_bytes(),
                named_string("Name".spec_bytes(), "Chunky Export".spec_bytes()),
            ) + named_int_array("Offset".spec_bytes(), seq![offset.x, offset.y, offset.z])
                + named_compound("Blocks".spec_bytes(), blocks_body@),
        ),
{
    let mut meta_body: Vec<u8> = Vec::new();
    {
        let mut m = CompoundWriter::new(&mut meta_body);
        m.string("Name", "Chunky Export");
        assert(has_resolved(m));
    }
    let off: Vec<i32> = vec![offset.x, offset.y, offset.z];
    assert(off@ =~= seq![offset.x, offset.y, offset.z]);
    let mut schem_body: Vec<u8> = Vec::new();
    {
        let mut c = CompoundWriter::new(&mut schem_body);
        c.int_tag("Version", 3);
        c.int_tag("DataVersion", version.data_version());
        c.compound("Metadata", meta_body.as_slice());
        c.int_array("Offset", off.as_slice());
        c.compound("Blocks", blocks_body.as_slice());
        assert(has_resolved(c));
    }
    let mut nbt_bytes: Vec<u8> = Vec::new();
    {
        let mut nbt = NbtWriter::new(&mut nbt_bytes);
        nbt.compound("Schematic", schem_body.as_slice());
        assert(has_resolved(nbt));
    }
    assert(schem_body@ =~= named_int("Version".spec_bytes(), 3) + named_int(
        "DataVersion".spec_bytes(),
        version.spec_data_version(),
    ) + named_compound(
        "Metadata".spec_bytes(),
        named_string("Name".spec_bytes(), "Chunky Export".spec_bytes()),
    ) + named_int_array("Offset".spec_bytes(), seq![offset.x, offset.y, offset.z])
        + named_compound("Blocks".spec_bytes(), blocks_body@));
    nbt_bytes
}

/// Encodes the schematic document for a palette and block array.
fn schem_document(
    grid: &VoxelGrid,
    db: &BlockDatabase,
    settings: &ExportSettings,
    sx: i32,
    sy: i32,
    sz: i32,
    palette: &Vec<String>,
    blocks: &Vec<u32>,
) -> (r: Vec<u8>)
    requires
        grid.chunks.len() > 0,
        sx == extent_x(*grid),
        sy == extent_y(*grid),
        sz == extent_z(*grid),
        views(palette@) == schem_palette(*grid, db.blocks@),
        1 <= palette@.len() <= 0x8000_0001,
        blocks@ == schem_blocks_upto(*grid, db.blocks@, grid.occupied_list().len() as int),
        forall|j: int| 0 <= j < blocks@.len() ==> (#[trigger] blocks@[j] as int) < palette@.len(),
    ensures
        r@ == schem_nbt(*grid, db.blocks@, settings.version, settings.offset),
{
    let data = schem_varint_data(blocks);
    let mut pal_body: Vec<u8> = Vec::new();
    write_palette_entries(&mut pal_body, palette);
    let blocks_body = schem_blocks_body(sx, sy, sz, &pal_body, &data);
    schem_root(settings.version, settings.offset, &blocks_body)
}

/// A Sponge schematic (version 3) of the occupied cells, gzip-compressed.
///
/// The region spans the bounding box of the occupied cells. Block indices refer to a
/// palette that starts with air and lists every other name in order of first use;
/// the block data lists the indices, in array order, as varints. The placement offset
/// of `settings` is recorded as `Offset`.
pub fn export_schem(
    grid: &VoxelGrid,
    db: &BlockDatabase,
    settings: &ExportSettings,
) -> (r: Result<Vec<u8>, ExportError>)
    requires
        grid.wf(),
        schem_fits(*grid),
    ensures
        r == Err::<Vec<u8>, ExportError>(ExportError::EmptyGrid) <==> grid.chunks.len() == 0,
        grid.chunks.len() > 0 ==> r is Ok,
        r matches Ok(bytes) ==> bytes@ == gzip_of(
            schem_nbt(*grid, db.blocks@, settings.version, settings.offset),
        ),
{
    let (min, max) = match grid.bounds_voxel() {
        Some(b) => b,
        None => {
            return Err(ExportError::EmptyGrid);
        },
    };
    let sx = max.x - min.x + 1;
    let sy = max.y - min.y + 1;
    let sz = max.z - min.z + 1;
    let w = sx as usize;
    let h = sy as usize;
    let d = sz as usize;
    let (palette, blocks) = schem_block_array(grid, db, min, max, w, h, d);
    let nbt_bytes = schem_document(grid, db, settings, sx, sy, sz, &palette, &blocks);
    Ok(gzip_compress(nbt_bytes.as_slice()))
}


// ---------------------------------------------------------------------------
// Reading a schematic back
// ---------------------------------------------------------------------------

/// Whether `p` lies in the bounding box of the occupied cells.
pub open spec fn in_schem_box(grid: VoxelGrid, p: IVec3) -> bool {
    &&& grid_min(grid).x <= p.x <= grid_max(grid).x
    &&& grid_min(grid).y <= p.y <= grid_max(grid).y
    &&& grid_min(grid).z <= p.z <= grid_max(grid).z
}

/// Positions of the box map to distinct entries of the block array, all in range.
proof fn lemma_schem_index(grid: VoxelGrid, p: IVec3, q: IVec3)
    requires
        schem_fits(grid),
        grid.chunks.len() > 0,
        in_schem_box(grid, p),
        in_schem_box(grid, q),
    ensures
        0 <= schem_index(p, grid_min(grid), extent_x(grid), extent_z(grid)) < extent_x(grid)
            * extent_y(grid) * extent_z(grid),
        schem_index(p, grid_min(grid), extent_x(grid), extent_z(grid)) == schem_index(
            q,
            grid_min(grid),
            extent_x(grid),
            extent_z(grid),
        ) ==> p == q,
{
    let mn = grid_min(grid);
    let (w, h, d) = (extent_x(grid), extent_y(grid), extent_z(grid));
    let (px, py, pz) = (p.x - mn.x, p.y - mn.y, p.z - mn.z);
    let (qx, qy, qz) = (q.x - mn.x, q.y - mn.y, q.z - mn.z);
    assert(0 <= py * w * d + pz * w + px < w * h * d) by (nonlinear_arith)
        requires
            0 <= px < w,
            0 <= py < h,
            0 <= pz < d,
    ;
    if py * w * d + pz * w + px == qy * w * d + qz * w + qx {
        assert(px == qx && py == qy && pz == qz) by (nonlinear_arith)
            requires
                py * w * d + pz * w + px == qy * w * d + qz * w + qx,
                0 <= px < w,
                0 <= qx < w,
                0 <= pz < d,
                0 <= qz < d,
                0 <= py,
                0 <= qy,
        {
            vstd::arithmetic::div_mod::lemma_fundamental_div_mod_converse(
                py * w * d + pz * w + px,
                w,
                py * d + pz,
                px,
            );
            vstd::arithmetic::div_mod::lemma_fundamental_div_mod_converse(
                qy * w * d + qz * w + qx,
                w,
                qy * d + qz,
                qx,
            );
            vstd::arithmetic::div_mod::lemma_fundamental_div_mod_converse(py * d + pz, d, py, pz);
            vstd::arithmetic::div_mod::lemma_fundamental_div_mod_converse(qy * d + qz, d, qy, qz);
        }
    }
}

/// After the first `k` cells are placed: the entry of cell `j < k` holds the palette index
/// its name had when it was placed, and an entry no placed cell maps to is 0.
proof fn lemma_schem_blocks(grid: VoxelGrid, blocks: Seq<BlockDef>, k: int, p: IVec3)
    requires
        grid.wf(),
        grid.chunks.len() > 0,
        schem_fits(grid),
        0 <= k <= grid.occupied_list().len(),
        in_schem_box(grid, p),
    ensures
        schem_blocks_upto(grid, blocks, k).len() == extent_x(grid) * extent_y(grid) * extent_z(grid),
        (forall|j: int| 0 <= j < k ==> grid.occupied_list()[j].0 != p) ==> schem_blocks_upto(
            grid,
            blocks,
            k,
        )[schem_index(p, grid_min(grid), extent_x(grid), extent_z(grid))] == 0,
        forall|j: int|
            0 <= j < k && grid.occupied_list()[j].0 == p ==> schem_blocks_upto(grid, blocks, k)[schem_index(
                p,
                grid_min(grid),
                extent_x(grid),
                extent_z(grid),
            )] == palette_upto(cell_names(grid, blocks), j + 1).index_of(
                #[trigger] cell_names(grid, blocks)[j],
            ) as u32,
    decreases k,
{
    let list = grid.occupied_list();
    let mn = grid_min(grid);
    let i = schem_index(p, mn, extent_x(grid), extent_z(grid));
    lemma_schem_index(grid, p, p);
    if k > 0 {
        lemma_schem_blocks(grid, blocks, k - 1, p);
        grid.lemma_occupied_list_exact();
        crate::voxel::lemma_min_on_axis(list, 0);
        crate::voxel::lemma_min_on_axis(list, 1);
        crate::voxel::lemma_min_on_axis(list, 2);
        crate::voxel::lemma_max_on_axis(list, 0);
        crate::voxel::lemma_max_on_axis(list, 1);
        crate::voxel::lemma_max_on_axis(list, 2);
        let q = list[k - 1].0;
        assert(in_schem_box(grid, q));
        lemma_schem_index(grid, q, p);
        assert forall|j: int|
            0 <= j < k && list[j].0 == p implies schem_blocks_upto(grid, blocks, k)[i]
            == palette_upto(cell_names(grid, blocks), j + 1).index_of(
            #[trigger] cell_names(grid, blocks)[j],
        ) as u32 by {
            if j < k - 1 && q == p {
                assert(list[j].0 == list[k - 1].0);
            }
        }
    }
}

/// Reading a schematic back: the block-array entry of every position in the box names, in
/// the palette, the block of the occupied cell there, and air where no cell is occupied.
pub proof fn lemma_schem_read_back(grid: VoxelGrid, blocks: Seq<BlockDef>, p: IVec3)
    requires
        grid.wf(),
        grid.chunks.len() > 0,
        schem_fits(grid),
        in_schem_box(grid, p),
    ensures
        ({
            let data = schem_blocks_upto(grid, blocks, grid.occupied_list().len() as int);
            let pal = schem_palette(grid, blocks);
            let i = schem_index(p, grid_min(grid), extent_x(grid), extent_z(grid));
            &&& 0 <= i < data.len()
            &&& data[i] < pal.len()
            &&& grid.occupied(p) ==> pal[data[i] as int] == name_of(
                blocks,
                grid.cell(p)->0.block_id,
            )
            &&& !grid.occupied(p) ==> pal[data[i] as int] == air_name()
        }),
{
    let list = grid.occupied_list();
    let n = list.len() as int;
    let names = cell_names(grid, blocks);
    let data = schem_blocks_upto(grid, blocks, n);
    let pal = schem_palette(grid, blocks);
    let i = schem_index(p, grid_min(grid), extent_x(grid), extent_z(grid));
    lemma_schem_index(grid, p, p);
    lemma_schem_blocks(grid, blocks, n, p);
    grid.lemma_occupied_list_exact();
    lemma_schem_count(grid);
    lemma_palette_upto(names, n);
    if grid.occupied(p) {
        let j = choose|j: int| 0 <= j < n && (#[trigger] list[j]).0 == p;
        lemma_palette_upto(names, j + 1);
        lemma_palette_prefix(names, j + 1, n);
        let pj = palette_upto(names, j + 1);
        assert(pj.contains(names[j]));
        let t = choose|t: int| 0 <= t < pj.len() && pj[t] == names[j];
        lemma_index_of_unique(pj, names[j], t);
        lemma_palette_upto(names, j + 1);
        assert(t < 0x1_0000_0000);
        assert(data[i] as int == t);
        assert(pal[t] == pj[t]);
        assert(data[i] < pal.len());
        assert(names[j] == name_of(blocks, list[j].1.block_id));
        assert(grid.cell(p) == Some(list[j].1));
    } else {
        assert forall|j: int| 0 <= j < n implies list[j].0 != p by {
            assert(grid.occupied(list[j].0));
        }
        assert(data[i] == 0);
        assert(pal[0] == air_name());
    }
}

/// The occupied cells lie in the box, each at its own entry, so there are no more of them
/// than entries in the block array.
proof fn lemma_schem_count(grid: VoxelGrid)
    requires
        grid.wf(),
        grid.chunks.len() > 0,
        schem_fits(grid),
    ensures
        grid.occupied_list().len() <= extent_x(grid) * extent_y(grid) * extent_z(grid),
{
    let list = grid.occupied_list();
    let mn = grid_min(grid);
    let (w, d) = (extent_x(grid), extent_z(grid));
    let idx = list.map_values(|e: (IVec3, Voxel)| schem_index(e.0, mn, w, d));
    grid.lemma_occupied_list_exact();
    crate::voxel::lemma_min_on_axis(list, 0);
    crate::voxel::lemma_min_on_axis(list, 1);
    crate::voxel::lemma_min_on_axis(list, 2);
    crate::voxel::lemma_max_on_axis(list, 0);
    crate::voxel::lemma_max_on_axis(list, 1);
    crate::voxel::lemma_max_on_axis(list, 2);
    assert forall|i: int| 0 <= i < idx.len() implies 0 <= #[trigger] idx[i] < w * extent_y(grid)
        * d by {
        assert(in_schem_box(grid, list[i].0));
        lemma_schem_index(grid, list[i].0, list[i].0);
    }
    assert(idx.no_duplicates()) by {
        assert forall|i: int, j: int| 0 <= i < idx.len() && 0 <= j < idx.len() && i != j implies idx[i]
            != idx[j] by {
            assert(in_schem_box(grid, list[i].0) && in_schem_box(grid, list[j].0));
            lemma_schem_index(grid, list[i].0, list[j].0);
        }
    }
    crate::geom::lemma_distinct_in_range(idx, w * extent_y(grid) * d);
}

// ---------------------------------------------------------------------------
// The schematic against the bounding box of the model
// ---------------------------------------------------------------------------

/// `mn` and `mx` are the least and greatest corners of the occupied cells: every occupied
/// cell lies between them, and each of their six coordinates is that of some occupied cell.
pub open spec fn bounding_box(grid: VoxelGrid, mn: IVec3, mx: IVec3) -> bool {
    &&& forall|q: IVec3| #[trigger] grid.occupied(q) ==> mn.x <= q.x <= mx.x && mn.y <= q.y <= mx.y
        && mn.z <= q.z <= mx.z
    &&& exists|q: IVec3| #[trigger] grid.occupied(q) && q.x == mn.x
    &&& exists|q: IVec3| #[trigger] grid.occupied(q) && q.y == mn.y
    &&& exists|q: IVec3| #[trigger] grid.occupied(q) && q.z == mn.z
    &&& exists|q: IVec3| #[trigger] grid.occupied(q) && q.x == mx.x
    &&& exists|q: IVec3| #[trigger] grid.occupied(q) && q.y == mx.y
    &&& exists|q: IVec3| #[trigger] grid.occupied(q) && q.z == mx.z
}

/// The corners of the bounding box are the ones the schematic is built around.
proof fn lemma_bounding_box_corners(grid: VoxelGrid, mn: IVec3, mx: IVec3)
    requires
        grid.wf(),
        bounding_box(grid, mn, mx),
    ensures
        grid.chunks.len() > 0,
        grid_min(grid) == mn,
        grid_max(grid) == mx,
{
    let list = grid.occupied_list();
    grid.lemma_occupied_list_exact();
    let q0 = choose|q: IVec3| #[trigger] grid.occupied(q) && q.x == mn.x;
    if grid.chunks.len() == 0 {
        assert(grid.cell(q0) is None);
    }
    assert forall|axis: int| 0 <= axis < 3 implies min_on_axis(list, axis) == axis_of(mn, axis)
        && max_on_axis(list, axis) == axis_of(mx, axis) by {
        lemma_min_on_axis(list, axis);
        lemma_max_on_axis(list, axis);
        let a = choose|q: IVec3| #[trigger] grid.occupied(q) && axis_of(q, axis) == axis_of(mn, axis);
        let b = choose|q: IVec3| #[trigger] grid.occupied(q) && axis_of(q, axis) == axis_of(mx, axis);
        let ka = choose|k: int| 0 <= k < list.len() && (#[trigger] list[k]).0 == a;
        let kb = choose|k: int| 0 <= k < list.len() && (#[trigger] list[k]).0 == b;
        let k1 = choose|k: int|
            0 <= k < list.len() && axis_of((#[trigger] list[k]).0, axis) == min_on_axis(list, axis);
        let k2 = choose|k: int|
            0 <= k < list.len() && axis_of((#[trigger] list[k]).0, axis) == max_on_axis(list, axis);
        assert(grid.occupied(list[k1].0));
        assert(grid.occupied(list[k2].0));
    }
    assert(min_on_axis(list, 0) == axis_of(mn, 0) && max_on_axis(list, 0) == axis_of(mx, 0));
    assert(min_on_axis(list, 1) == axis_of(mn, 1) && max_on_axis(list, 1) == axis_of(mx, 1));
    assert(min_on_axis(list, 2) == axis_of(mn, 2) && max_on_axis(list, 2) == axis_of(mx, 2));
}

/// In the schematic of a grid whose occupied cells span the box from `mn` to `mx`, the
/// block-array entry at `(p.y - mn.y) * W * L + (p.z - mn.z) * W + (p.x - mn.x)`, with
/// `W` and `L` the box's extents along x and z, names in the palette the block of the
/// occupied cell at `p`, or air where no cell is occupied.
pub open spec fn box_entry_names_cell(
    grid: VoxelGrid,
    blocks: Seq<BlockDef>,
    mn: IVec3,
    mx: IVec3,
    p: IVec3,
) -> bool {
    let w = mx.x - mn.x + 1;
    let l = mx.z - mn.z + 1;
    let data = schem_blocks_upto(grid, blocks, grid.occupied_list().len() as int);
    let pal = schem_palette(grid, blocks);
    let i = (p.y - mn.y) * w * l + (p.z - mn.z) * w + (p.x - mn.x);
    &&& 0 <= i < data.len()
    &&& data[i] < pal.len()
    &&& grid.occupied(p) ==> pal[data[i] as int] == name_of(blocks, grid.cell(p)->0.block_id)
    &&& !grid.occupied(p) ==> pal[data[i] as int] == air_name()
}

/// The schematic of a grid whose occupied cells span the box from `mn` to `mx`: its
/// `Width`, `Height` and `Length` are the box's extents along x, y and z, its block array
/// has one entry per cell of the box, and every position of the box has its entry laid out
/// y-major, then z, then x (see `box_entry_names_cell`).
pub proof fn lemma_schem_layout(
    grid: VoxelGrid,
    blocks: Seq<BlockDef>,
    version: MinecraftVersion,
    offset: IVec3,
    mn: IVec3,
    mx: IVec3,
)
    requires
        grid.wf(),
        schem_fits(grid),
        bounding_box(grid, mn, mx),
    ensures
        schem_nbt(grid, blocks, version, offset) == named_compound(
            "Schematic".spec_bytes(),
            named_int("Version".spec_bytes(), 3) + named_int(
                "DataVersion".spec_bytes(),
                version.spec_data_version(),
            ) + named_compound(
                "Metadata".spec_bytes(),
                named_string("Name".spec_bytes(), "Chunky Export".spec_bytes()),
            ) + named_int_array("Offset".spec_bytes(), seq![offset.x, offset.y, offset.z])
                + named_compound(
                "Blocks".spec_bytes(),
                named_int("Width".spec_bytes(), (mx.x - mn.x + 1) as i32) + named_int(
                    "Height".spec_bytes(),
                    (mx.y - mn.y + 1) as i32,
                ) + named_int("Length".spec_bytes(), (mx.z - mn.z + 1) as i32) + named_compound(
                    "Palette".spec_bytes(),
                    palette_entries(schem_palette(grid, blocks)),
                ) + named_byte_array(
                    "Data".spec_bytes(),
                    varints(schem_blocks_upto(grid, blocks, grid.occupied_list().len() as int)),
                ),
            ),
        ),
        schem_blocks_upto(grid, blocks, grid.occupied_list().len() as int).len() == (mx.x - mn.x
            + 1) * (mx.y - mn.y + 1) * (mx.z - mn.z + 1),
        schem_palette(grid, blocks)[0] == air_name(),
        schem_palette(grid, blocks).no_duplicates(),
        forall|p: IVec3|
            mn.x <= p.x <= mx.x && mn.y <= p.y <= mx.y && mn.z <= p.z <= mx.z
                ==> #[trigger] box_entry_names_cell(grid, blocks, mn, mx, p),
{
    lemma_bounding_box_corners(grid, mn, mx);
    let n = grid.occupied_list().len() as int;
    lemma_schem_count(grid);
    lemma_palette_upto(cell_names(grid, blocks), n);
    lemma_schem_blocks(grid, blocks, n, mn);
    assert forall|p: IVec3|
        mn.x <= p.x <= mx.x && mn.y <= p.y <= mx.y && mn.z <= p.z <= mx.z implies #[trigger] box_entry_names_cell(
        grid,
        blocks,
        mn,
        mx,
        p,
    ) by {
        lemma_schem_read_back(grid, blocks, p);
        let w = mx.x - mn.x + 1;
        let l = mx.z - mn.z + 1;
        assert(extent_x(grid) == w);
        assert(extent_z(grid) == l);
        assert(schem_index(p, grid_min(grid), extent_x(grid), extent_z(grid)) == (p.y - mn.y) * w * l
            + (p.z - mn.z) * w + (p.x - mn.x));
    }
}

} // verus!
