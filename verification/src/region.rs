//! Minecraft chunk documents and region (`.mca`) files.
use vstd::prelude::*;
use vstd::string::*;
use vstd::utf8::encode_utf8;

use crate::export::{
    air_name, lemma_index_of_unique, lemma_palette_prefix, lemma_palette_upto, name_of,
    palette_upto, views,
};
use crate::geom::IVec3;
use crate::nbt::{
    be_u32, push_bytes, push_u32_be, concat, lemma_concat_push, named_byte, named_byte_array, named_compound,
    named_compound_list, named_int, named_long, named_long_array, named_string, named_string_list,
    CompoundListWriter, CompoundWriter, NbtWriter, TAG_END,
};
use crate::pack::{
    bit_len, bit_length, fits, lemma_bit_len_bound, lemma_word_field, pack_longs, packed_words,
};
use crate::palette::{BlockDatabase, BlockDef, MinecraftVersion};
use crate::voxel::{Voxel, VoxelGrid};
use crate::compress::{zlib_compress, zlib_of};
use crate::export::{ExportError, ExportSettings, grid_min, grid_max};

verus! {

// ---------------------------------------------------------------------------
// Sections
// ---------------------------------------------------------------------------

/// Slot of a block inside a 16 x 16 x 16 section: y-major, then z, then x.
pub open spec fn section_slot(b: (i32, i32, i32, u16)) -> int {
    b.1 * 256 + b.2 * 16 + b.0
}

/// Local coordinates lie inside the section.
pub open spec fn local_ok(b: (i32, i32, i32, u16)) -> bool {
    &&& 0 <= b.0 < 16
    &&& 0 <= b.1 < 16
    &&& 0 <= b.2 < 16
}

/// The slot of a block can be computed in 32-bit arithmetic: `y * 256`, `z * 16`, their sum
/// and the final sum with `x` all fit in an `i32`.
pub open spec fn slot_computable(b: (i32, i32, i32, u16)) -> bool {
    &&& i32::MIN <= b.1 * 256 <= i32::MAX
    &&& i32::MIN <= b.2 * 16 <= i32::MAX
    &&& i32::MIN <= b.1 * 256 + b.2 * 16 <= i32::MAX
    &&& i32::MIN <= section_slot(b) <= i32::MAX
}

pub open spec fn section_names(blocks: Seq<(i32, i32, i32, u16)>, db: Seq<BlockDef>) -> Seq<Seq<char>> {
    blocks.map_values(|b: (i32, i32, i32, u16)| name_of(db, b.3))
}

/// The section's palette indices after placing the first `k` blocks; 4096 slots, air elsewhere.
/// A block whose slot lies outside the section is not placed, though its name still enters
/// the palette.
pub open spec fn section_slots_upto(
    blocks: Seq<(i32, i32, i32, u16)>,
    db: Seq<BlockDef>,
    k: int,
) -> Seq<u32>
    decreases k,
{
    if k <= 0 {
        Seq::new(4096, |i: int| 0u32)
    } else {
        let names = section_names(blocks, db);
        let prev = section_slots_upto(blocks, db, k - 1);
        if 0 <= section_slot(blocks[k - 1]) < 4096 {
            prev.update(
                section_slot(blocks[k - 1]),
                palette_upto(names, k).index_of(names[k - 1]) as u32,
            )
        } else {
            prev
        }
    }
}

/// Digits per palette index in a section: enough for the largest index, at least four.
pub open spec fn section_bits(pal_len: nat) -> nat {
    let b = bit_len((pal_len - 1) as nat);
    if b < 4 {
        4
    } else {
        b
    }
}

pub open spec fn section_palette(blocks: Seq<(i32, i32, i32, u16)>, db: Seq<BlockDef>) -> Seq<Seq<char>> {
    palette_upto(section_names(blocks, db), blocks.len() as int)
}

/// The packed block states of a section, as signed 64-bit words.
pub open spec fn section_longs(blocks: Seq<(i32, i32, i32, u16)>, db: Seq<BlockDef>) -> Seq<i64> {
    let slots = section_slots_upto(blocks, db, blocks.len() as int);
    let bits = section_bits(section_palette(blocks, db).len());
    packed_words(slots, bits).map_values(|w: u64| w as i64)
}

/// The palette of a section (air first, then names in order of first use) and its block
/// states: one index per slot, `section_bits` digits each, `64 / bits` indices per word.
/// A block whose slot `y * 256 + z * 16 + x` falls outside `0..4096` is not placed; its
/// name still enters the palette.
pub fn encode_section(blocks: &[(i32, i32, i32, u16)], db: &BlockDatabase) -> (r: (Vec<String>, Vec<i64>))
    requires
        blocks@.len() <= 0x8000_0000,
        forall|i: int| 0 <= i < blocks@.len() ==> slot_computable(#[trigger] blocks@[i]),
    ensures
        views(r.0@) == section_palette(blocks@, db.blocks@),
        r.1@ == section_longs(blocks@, db.blocks@),
{
    let ghost names = section_names(blocks@, db.blocks@);
    let mut palette: Vec<String> = Vec::new();
    palette.push("minecraft:air".to_owned());
    let mut state_indices: Vec<u32> = Vec::new();
    let mut t: usize = 0;
    while t < 4096
        invariant
            t <= 4096,
            state_indices@.len() == t,
            forall|j: int| 0 <= j < t ==> state_indices@[j] == 0u32,
        decreases 4096 - t,
    {
        state_indices.push(0);
        t = t + 1;
    }
    proof {
        assert(views(palette@) =~= seq![air_name()]);
        assert(state_indices@ =~= section_slots_upto(blocks@, db.blocks@, 0));
    }
    let mut k: usize = 0;
    while k < blocks.len()
        invariant
            blocks@.len() <= 0x8000_0000,
            forall|i: int| 0 <= i < blocks@.len() ==> slot_computable(#[trigger] blocks@[i]),
            names == section_names(blocks@, db.blocks@),
            k <= blocks.len(),
            views(palette@) == palette_upto(names, k as int),
            views(palette@).no_duplicates(),
            1 <= palette@.len() <= k + 1,
            state_indices@ == section_slots_upto(blocks@, db.blocks@, k as int),
            state_indices@.len() == 4096,
            forall|j: int|
                0 <= j < state_indices@.len() ==> (#[trigger] state_indices@[j] as int) < palette@.len(),
        decreases blocks.len() - k,
    {
        let (lx, ly, lz, block_id) = blocks[k];
        assert(slot_computable(blocks@[k as int]));
        let name = db.mc_name(block_id).to_owned();
        proof {
            lemma_palette_upto(names, k as int);
            assert(names[k as int] == name@);
        }
        let idx = crate::export::palette_insert(&mut palette, name);
        let slot: i32 = ly * 256 + lz * 16 + lx;
        proof {
            lemma_palette_upto(names, k + 1);
        }
        if 0 <= slot && slot < 4096 {
            state_indices.set(slot as usize, idx as u32);
        }
        k = k + 1;
    }
    let top = palette.len() - 1;
    let mut bits = bit_length(top);
    if bits < 4 {
        bits = 4;
    }
    proof {
        assert(bits == section_bits(palette@.len()));
        lemma_bit_len_bound(top as nat);
        if bit_len(top as nat) < bits as nat {
            vstd::arithmetic::power2::lemma_pow2_strictly_increases(bit_len(top as nat), bits as nat);
        }
        assert forall|j: int| 0 <= j < state_indices@.len() implies (#[trigger] state_indices@[j])
            < vstd::arithmetic::power2::pow2(bits as nat) by {
            assert(state_indices@[j] <= top);
        }
        assert(bits <= 32) by {
            if bits > 32 {
                let e = (bits - 1) as nat;
                if e > 32 {
                    vstd::arithmetic::power2::lemma_pow2_strictly_increases(32, e);
                }
                assert(vstd::arithmetic::power2::pow2(32) == 0x1_0000_0000) by {
                    vstd::arithmetic::power2::lemma2_to64();
                }
                assert(vstd::arithmetic::power2::pow2(e) <= top);
            }
        }
    }
    let longs = pack_longs(state_indices.as_slice(), bits);
    proof {
        let words = packed_words(state_indices@, bits as nat);
        assert forall|j: int| 0 <= j < longs@.len() implies #[trigger] longs@[j] == (words[j] as i64) by {
            let x = longs@[j];
            let w = words[j];
            assert((x as u64) == w ==> x == (w as i64)) by (bit_vector);
        }
        assert(longs@ =~= section_longs(blocks@, db.blocks@));
    }
    (palette, longs)
}

/// No two blocks of the list share a slot.
pub open spec fn distinct_block_slots(blocks: Seq<(i32, i32, i32, u16)>) -> bool {
    forall|a: int, b: int|
        0 <= a < blocks.len() && 0 <= b < blocks.len() && a != b ==> section_slot(
            #[trigger] blocks[a],
        ) != section_slot(#[trigger] blocks[b])
}

/// After placing the first `k` blocks: the slot of block `j < k` holds the palette index its
/// name had when it was placed, and a slot that no placed block uses holds 0.
proof fn lemma_section_slots(blocks: Seq<(i32, i32, i32, u16)>, db: Seq<BlockDef>, k: int, s: int)
    requires
        0 <= k <= blocks.len(),
        0 <= s < 4096,
        forall|i: int| 0 <= i < blocks.len() ==> local_ok(#[trigger] blocks[i]),
        distinct_block_slots(blocks),
    ensures
        section_slots_upto(blocks, db, k).len() == 4096,
        (forall|j: int| 0 <= j < k ==> section_slot(#[trigger] blocks[j]) != s) ==> section_slots_upto(
            blocks,
            db,
            k,
        )[s] == 0,
        forall|j: int|
            0 <= j < k && section_slot(blocks[j]) == s ==> section_slots_upto(blocks, db, k)[s]
                == palette_upto(section_names(blocks, db), j + 1).index_of(
                #[trigger] section_names(blocks, db)[j],
            ) as u32,
    decreases k,
{
    if k > 0 {
        lemma_section_slots(blocks, db, k - 1, s);
        assert(local_ok(blocks[k - 1]));
    }
}

/// Reading a section back: the field of slot `s` in the packed block states (word
/// `s / (64 / bits)`, digits from `(s % (64 / bits)) * bits`) indexes, in the palette, the name
/// of the block placed at that slot, or air where no block was placed.
pub proof fn lemma_section_read_back(blocks: Seq<(i32, i32, i32, u16)>, db: Seq<BlockDef>, s: int)
    requires
        blocks.len() <= 0x8000_0000,
        forall|i: int| 0 <= i < blocks.len() ==> local_ok(#[trigger] blocks[i]),
        distinct_block_slots(blocks),
        0 <= s < 4096,
    ensures
        ({
            let pal = section_palette(blocks, db);
            let bits = section_bits(pal.len());
            let per: int = (64nat / bits) as int;
            let words = packed_words(section_slots_upto(blocks, db, blocks.len() as int), bits);
            let field = (words[s / per] as nat / vstd::arithmetic::power2::pow2(
                ((s % per) * bits) as nat,
            )) % vstd::arithmetic::power2::pow2(bits);
            &&& 4 <= bits <= 32
            &&& 0 <= s / per < words.len()
            &&& field < pal.len()
            &&& forall|j: int|
                0 <= j < blocks.len() && section_slot(blocks[j]) == s ==> pal[field as int] == name_of(
                    db,
                    (#[trigger] blocks[j]).3,
                )
            &&& (forall|j: int| 0 <= j < blocks.len() ==> section_slot(#[trigger] blocks[j]) != s)
                ==> pal[field as int] == air_name()
        }),
{
    let n = blocks.len() as int;
    let names = section_names(blocks, db);
    let pal = section_palette(blocks, db);
    let slots = section_slots_upto(blocks, db, n);
    lemma_palette_upto(names, n);
    lemma_section_slots(blocks, db, n, s);
    // Every slot holds an index into the palette.
    assert forall|t: int| 0 <= t < 4096 implies (#[trigger] slots[t] as int) < pal.len() by {
        lemma_section_slots(blocks, db, n, t);
        if exists|j: int| 0 <= j < n && section_slot(#[trigger] blocks[j]) == t {
            let j = choose|j: int| 0 <= j < n && section_slot(#[trigger] blocks[j]) == t;
            lemma_palette_upto(names, j + 1);
            lemma_palette_prefix(names, j + 1, n);
            let pj = palette_upto(names, j + 1);
            let u = choose|u: int| 0 <= u < pj.len() && pj[u] == names[j];
            lemma_index_of_unique(pj, names[j], u);
        }
    }
    // The digits per index.
    let top = (pal.len() - 1) as nat;
    let bits = section_bits(pal.len());
    lemma_bit_len_bound(top);
    if bit_len(top) < bits {
        vstd::arithmetic::power2::lemma_pow2_strictly_increases(bit_len(top), bits);
    }
    assert(bits <= 32) by {
        if bits > 32 {
            let e = (bits - 1) as nat;
            if e > 32 {
                vstd::arithmetic::power2::lemma_pow2_strictly_increases(32, e);
            }
            assert(vstd::arithmetic::power2::pow2(32) == 0x1_0000_0000) by {
                vstd::arithmetic::power2::lemma2_to64();
            }
        }
    }
    assert(fits(slots, bits)) by {
        assert forall|t: int| 0 <= t < slots.len() implies (#[trigger] slots[t])
            < vstd::arithmetic::power2::pow2(bits) by {
            assert(slots[t] as int <= top);
        }
    }
    let per = 64nat / bits;
    assert(per >= 2) by (nonlinear_arith)
        requires
            per == 64nat / bits,
            4 <= bits <= 32,
    ;
    let k = s / (per as int);
    let j = s % (per as int);
    assert(s == k * per + j && 0 <= j < per) by (nonlinear_arith)
        requires
            per > 0,
            k == s / (per as int),
            j == s % (per as int),
    ;
    lemma_word_field(slots, bits, k, j);
    let field = slots[s];
    if exists|i: int| 0 <= i < n && section_slot(#[trigger] blocks[i]) == s {
        let i = choose|i: int| 0 <= i < n && section_slot(#[trigger] blocks[i]) == s;
        lemma_palette_upto(names, i + 1);
        lemma_palette_prefix(names, i + 1, n);
        let pi = palette_upto(names, i + 1);
        let u = choose|u: int| 0 <= u < pi.len() && pi[u] == names[i];
        lemma_index_of_unique(pi, names[i], u);
        assert(field as int == u);
        assert(pal[u] == pi[u]);
        assert forall|j2: int|
            0 <= j2 < n && section_slot(blocks[j2]) == s implies pal[field as int] == name_of(
            db,
            (#[trigger] blocks[j2]).3,
        ) by {
            if j2 != i {
                assert(section_slot(blocks[j2]) != section_slot(blocks[i]));
            }
        }
    } else {
        assert(field == 0);
    }
}


// ---------------------------------------------------------------------------
// Chunk documents
// ---------------------------------------------------------------------------

/// The `Y` of the section that holds height `y`: `y` divided by 16, rounding down (-4 to 19
/// for the heights the world holds).
pub open spec fn section_of(y: int) -> int {
    y / 16
}

/// A world block as a section-local block.
pub open spec fn local_of(b: (IVec3, u16)) -> (i32, i32, i32, u16) {
    (((b.0.x as int) % 16) as i32, ((b.0.y as int) % 16) as i32, ((b.0.z as int) % 16) as i32, b.1)
}

/// Heights the world holds: from -64 up to, not including, 320.
pub open spec fn height_ok(b: (IVec3, u16)) -> bool {
    -64 <= b.0.y < 320
}

/// The blocks, among the first `n`, that lie in section `s`, in order, as section-local blocks.
pub open spec fn section_blocks(blocks: Seq<(IVec3, u16)>, s: int, n: int) -> Seq<(i32, i32, i32, u16)>
    decreases n,
{
    if n <= 0 {
        Seq::empty()
    } else {
        let prev = section_blocks(blocks, s, n - 1);
        if section_of(blocks[n - 1].0.y as int) == s {
            prev.push(local_of(blocks[n - 1]))
        } else {
            prev
        }
    }
}

/// The `palette` list of a section: one compound `{Name: name}` per palette entry.
pub open spec fn palette_items(pal: Seq<Seq<char>>) -> Seq<Seq<u8>> {
    Seq::new(pal.len(), |i: int| named_string("Name".spec_bytes(), encode_utf8(pal[i])) + seq![TAG_END])
}

/// The children of a section's `block_states` compound; `data` only when the palette has
/// more than one entry.
pub open spec fn block_states_body(sec: Seq<(i32, i32, i32, u16)>, db: Seq<BlockDef>) -> Seq<u8> {
    let pal = section_palette(sec, db);
    named_compound_list("palette".spec_bytes(), palette_items(pal)) + (if pal.len() > 1 {
        named_long_array("data".spec_bytes(), section_longs(sec, db))
    } else {
        Seq::empty()
    })
}

/// The children of a section compound.
pub open spec fn section_body(sec: Seq<(i32, i32, i32, u16)>, s: i8, db: Seq<BlockDef>) -> Seq<u8> {
    named_byte("Y".spec_bytes(), s) + named_compound(
        "block_states".spec_bytes(),
        block_states_body(sec, db),
    ) + named_compound(
        "biomes".spec_bytes(),
        named_string_list("palette".spec_bytes(), seq!["minecraft:plains".spec_bytes()]),
    ) + named_byte_array("SkyLight".spec_bytes(), Seq::empty()) + named_byte_array(
        "BlockLight".spec_bytes(),
        Seq::empty(),
    )
}

/// Positions (among the first `n`) of the blocks that lie in section `s`.
pub open spec fn section_origins(blocks: Seq<(IVec3, u16)>, s: int, n: int) -> Seq<int>
    decreases n,
{
    if n <= 0 {
        Seq::empty()
    } else {
        let prev = section_origins(blocks, s, n - 1);
        if section_of(blocks[n - 1].0.y as int) == s {
            prev.push(n - 1)
        } else {
            prev
        }
    }
}

/// Section `s` lists, in order, the section-local form of each block of the section.
proof fn lemma_section_origins(blocks: Seq<(IVec3, u16)>, s: int, n: int)
    requires
        0 <= n <= blocks.len(),
    ensures
        section_origins(blocks, s, n).len() == section_blocks(blocks, s, n).len(),
        forall|j: int|
            0 <= j < section_origins(blocks, s, n).len() ==> {
                let m = #[trigger] section_origins(blocks, s, n)[j];
                &&& 0 <= m < n
                &&& section_of(blocks[m].0.y as int) == s
                &&& section_blocks(blocks, s, n)[j] == local_of(blocks[m])
            },
        forall|i: int, j: int|
            0 <= i < j < section_origins(blocks, s, n).len() ==> #[trigger] section_origins(
                blocks,
                s,
                n,
            )[i] < #[trigger] section_origins(blocks, s, n)[j],
        forall|m: int|
            0 <= m < n && section_of(blocks[m].0.y as int) == s ==> exists|j: int|
                0 <= j < section_origins(blocks, s, n).len() && #[trigger] section_origins(
                    blocks,
                    s,
                    n,
                )[j] == m,
    decreases n,
{
    if n > 0 {
        lemma_section_origins(blocks, s, n - 1);
        let po = section_origins(blocks, s, n - 1);
        let co = section_origins(blocks, s, n);
        let pb = section_blocks(blocks, s, n - 1);
        let cb = section_blocks(blocks, s, n);
        assert forall|j: int| 0 <= j < po.len() implies #[trigger] co[j] == po[j] && cb[j] == pb[j] by {}
        assert forall|m: int|
            0 <= m < n && section_of(blocks[m].0.y as int) == s implies exists|j: int|
            0 <= j < co.len() && #[trigger] co[j] == m by {
            if m < n - 1 {
                let j = choose|j: int| 0 <= j < po.len() && #[trigger] po[j] == m;
                assert(co[j] == m);
            } else {
                assert(co[po.len() as int] == m);
            }
        }
    }
}

/// Whether all blocks lie in one chunk column, each at a height the world holds, no two at
/// the same position.
pub open spec fn column_blocks_ok(blocks: Seq<(IVec3, u16)>) -> bool {
    &&& forall|i: int| 0 <= i < blocks.len() ==> height_ok(#[trigger] blocks[i])
    &&& forall|i: int, j: int|
        0 <= i < blocks.len() && 0 <= j < blocks.len() ==> chunk_key((#[trigger] blocks[i]).0)
            == chunk_key((#[trigger] blocks[j]).0)
    &&& forall|i: int, j: int|
        0 <= i < blocks.len() && 0 <= j < blocks.len() && i != j ==> (#[trigger] blocks[i]).0
            != (#[trigger] blocks[j]).0
}

/// Placing the blocks of a chunk column: each block is listed in the section of its height,
/// at the slot of its position inside the section, and no two blocks of a section share a
/// slot, so each can be read back from the section (see `lemma_section_read_back`).
pub proof fn lemma_column_placement(blocks: Seq<(IVec3, u16)>, k: int)
    requires
        column_blocks_ok(blocks),
        0 <= k < blocks.len(),
    ensures
        ({
            let s = section_of(blocks[k].0.y as int);
            let sec = section_blocks(blocks, s, blocks.len() as int);
            &&& -4 <= s < 20
            &&& forall|i: int| 0 <= i < sec.len() ==> local_ok(#[trigger] sec[i])
            &&& distinct_block_slots(sec)
            &&& exists|j: int| 0 <= j < sec.len() && #[trigger] sec[j] == local_of(blocks[k])
        }),
{
    let n = blocks.len() as int;
    let s = section_of(blocks[k].0.y as int);
    let sec = section_blocks(blocks, s, n);
    let org = section_origins(blocks, s, n);
    lemma_section_origins(blocks, s, n);
    assert(height_ok(blocks[k]));
    assert forall|i: int| 0 <= i < sec.len() implies local_ok(#[trigger] sec[i]) by {
        let m = org[i];
        assert(sec[i] == local_of(blocks[m]));
    }
    assert forall|a: int, b: int|
        0 <= a < sec.len() && 0 <= b < sec.len() && a != b implies section_slot(
        #[trigger] sec[a],
    ) != section_slot(#[trigger] sec[b]) by {
        let ma = org[a];
        let mb = org[b];
        if a < b {
            assert(ma < mb);
        } else {
            assert(mb < ma);
        }
        let pa = blocks[ma].0;
        let pb = blocks[mb].0;
        assert(pa != pb);
        assert(chunk_key(pa) == chunk_key(pb));
        assert(height_ok(blocks[ma]) && height_ok(blocks[mb]));
        if section_slot(sec[a]) == section_slot(sec[b]) {
            let (ax, ay, az) = (pa.x as int, pa.y as int, pa.z as int);
            let (bx, by, bz) = (pb.x as int, pb.y as int, pb.z as int);
            assert(ax == 16 * (ax / 16) + ax % 16 && 0 <= ax % 16 < 16) by (nonlinear_arith);
            assert(bx == 16 * (bx / 16) + bx % 16 && 0 <= bx % 16 < 16) by (nonlinear_arith);
            assert(ay == 16 * (ay / 16) + ay % 16 && 0 <= ay % 16 < 16) by (nonlinear_arith);
            assert(by == 16 * (by / 16) + by % 16 && 0 <= by % 16 < 16) by (nonlinear_arith);
            assert(az == 16 * (az / 16) + az % 16 && 0 <= az % 16 < 16) by (nonlinear_arith);
            assert(bz == 16 * (bz / 16) + bz % 16 && 0 <= bz % 16 < 16) by (nonlinear_arith);
            let (u1, v1, w1) = (ay % 16, az % 16, ax % 16);
            let (u2, v2, w2) = (by % 16, bz % 16, bx % 16);
            assert(u1 == u2 && v1 == v2 && w1 == w2) by (nonlinear_arith)
                requires
                    u1 * 256 + v1 * 16 + w1 == u2 * 256 + v2 * 16 + w2,
                    0 <= u1 < 16,
                    0 <= v1 < 16,
                    0 <= w1 < 16,
                    0 <= u2 < 16,
                    0 <= v2 < 16,
                    0 <= w2 < 16,
            ;
            assert(pa == pb);
        }
    }
    let j = choose|j: int| 0 <= j < org.len() && #[trigger] org[j] == k;
    assert(sec[j] == local_of(blocks[k]));
}

/// The section list of a chunk holds, for each `Y` from -4 below `k - 4` whose section has
/// a block, that section's compound.
proof fn lemma_section_items_has(blocks: Seq<(IVec3, u16)>, db: Seq<BlockDef>, k: int, s: int)
    requires
        -4 <= s < k - 4,
        section_blocks(blocks, s, blocks.len() as int).len() > 0,
    ensures
        section_items(blocks, db, k).contains(
            section_body(section_blocks(blocks, s, blocks.len() as int), s as i8, db) + seq![TAG_END],
        ),
    decreases k,
{
    let item = section_body(section_blocks(blocks, s, blocks.len() as int), s as i8, db) + seq![TAG_END];
    let prev = section_items(blocks, db, k - 1);
    if s == k - 5 {
        assert(section_items(blocks, db, k) == prev.push(item));
        assert(section_items(blocks, db, k)[prev.len() as int] == item);
    } else {
        lemma_section_items_has(blocks, db, k - 1, s);
        let i = choose|i: int| 0 <= i < prev.len() && prev[i] == item;
        assert(section_items(blocks, db, k)[i] == item);
    }
}

/// Where a block of a chunk column goes: the block at world position `(x, y, z)` is listed in
/// the section whose `Y` is `y / 16` (rounded down, -4 to 19), which the chunk's section list
/// holds under that `Y`, with local coordinates
/// `(x mod 16, y mod 16, z mod 16)` in that order, so it takes the section's slot
/// `(y mod 16) * 256 + (z mod 16) * 16 + (x mod 16)`.
pub proof fn lemma_block_local_position(blocks: Seq<(IVec3, u16)>, db: Seq<BlockDef>, k: int)
    requires
        column_blocks_ok(blocks),
        0 <= k < blocks.len(),
    ensures
        -4 <= (blocks[k].0.y as int) / 16 < 20,
        section_items(blocks, db, 24).contains(
            section_body(
                section_blocks(blocks, (blocks[k].0.y as int) / 16, blocks.len() as int),
                ((blocks[k].0.y as int) / 16) as i8,
                db,
            ) + seq![TAG_END],
        ),
        ({
            let (x, y, z) = (blocks[k].0.x as int, blocks[k].0.y as int, blocks[k].0.z as int);
            let sec = section_blocks(blocks, y / 16, blocks.len() as int);
            exists|j: int|
                0 <= j < sec.len() && (#[trigger] sec[j]).0 as int == x % 16 && sec[j].1 as int == y % 16
                    && sec[j].2 as int == z % 16 && sec[j].3 == blocks[k].1 && section_slot(sec[j]) == (
                y % 16) * 256 + (z % 16) * 16 + x % 16
        }),
{
    lemma_column_placement(blocks, k);
    let (x, y, z) = (blocks[k].0.x as int, blocks[k].0.y as int, blocks[k].0.z as int);
    let sec = section_blocks(blocks, y / 16, blocks.len() as int);
    let j = choose|j: int| 0 <= j < sec.len() && #[trigger] sec[j] == local_of(blocks[k]);
    assert(0 <= x % 16 < 16 && 0 <= y % 16 < 16 && 0 <= z % 16 < 16);
    assert(sec[j].0 as int == x % 16);
    assert(sec[j].1 as int == y % 16);
    assert(sec[j].2 as int == z % 16);
    lemma_section_items_has(blocks, db, 24, y / 16);
}

/// The section compounds for the lowest `k` sections (`Y` from -4 up to `k - 5`) that hold
/// a block, bottom up.
pub open spec fn section_items(blocks: Seq<(IVec3, u16)>, db: Seq<BlockDef>, k: int) -> Seq<Seq<u8>>
    decreases k,
{
    if k <= 0 {
        Seq::empty()
    } else {
        let prev = section_items(blocks, db, k - 1);
        let sec = section_blocks(blocks, k - 5, blocks.len() as int);
        if sec.len() > 0 {
            prev.push(section_body(sec, (k - 5) as i8, db) + seq![TAG_END])
        } else {
            prev
        }
    }
}

/// The NBT document of one chunk column.
pub open spec fn chunk_nbt(
    cx: i32,
    cz: i32,
    blocks: Seq<(IVec3, u16)>,
    db: Seq<BlockDef>,
    version: MinecraftVersion,
) -> Seq<u8> {
    named_compound(
        "".spec_bytes(),
        named_int("DataVersion".spec_bytes(), version.spec_data_version()) + named_int(
            "xPos".spec_bytes(),
            cx,
        ) + named_int("yPos".spec_bytes(), -4i32) + named_int("zPos".spec_bytes(), cz) + named_string(
            "Status".spec_bytes(),
            "minecraft:full".spec_bytes(),
        ) + named_long("LastUpdate".spec_bytes(), 0) + named_long("InhabitedTime".spec_bytes(), 0)
            + named_compound_list("sections".spec_bytes(), section_items(blocks, db, 24))
            + named_compound("Heightmaps".spec_bytes(), Seq::empty()) + named_compound_list(
            "block_entities".spec_bytes(),
            Seq::empty(),
        ),
    )
}

fn palette_list(pal: &Vec<String>) -> (r: Vec<Vec<u8>>)
    ensures
        r@.map_values(|v: Vec<u8>| v@) == palette_items(views(pal@)),
{
    let mut items: Vec<Vec<u8>> = Vec::new();
    let ghost f = |v: Vec<u8>| v@;
    let mut i: usize = 0;
    while i < pal.len()
        invariant
            i <= pal.len(),
            f == (|v: Vec<u8>| v@),
            items@.len() == i,
            items@.map_values(f) == palette_items(views(pal@)).take(i as int),
        decreases pal.len() - i,
    {
        let mut entry: Vec<u8> = Vec::new();
        let name = pal[i].as_str();
        {
            let mut e = CompoundWriter::new(&mut entry);
            e.string("Name", name);
            assert(has_resolved(e));
        }
        let ghost old_items = items@;
        items.push_compound(entry.as_slice());
        assert(items@.len() == old_items.len() + 1);
        proof {
            assert(views(pal@)[i as int] == pal@[i as int]@);
            assert(name.spec_bytes() == encode_utf8(views(pal@)[i as int]));
            let target = palette_items(views(pal@)).take(i + 1);
            assert forall|j: int| 0 <= j < i + 1 implies items@.map_values(f)[j] == target[j] by {
                if j < i {
                    assert(items@[j] == old_items[j]);
                    assert(old_items.map_values(f)[j] == palette_items(views(pal@)).take(i as int)[j]);
                }
            }
            assert(items@.map_values(f) =~= palette_items(views(pal@)).take(i + 1));
        }
        i = i + 1;
    }
    assert(palette_items(views(pal@)).take(pal@.len() as int) =~= palette_items(views(pal@)));
    items
}

/// The children of one section compound.
fn section_compound_body(sec: &Vec<(i32, i32, i32, u16)>, s: i8, db: &BlockDatabase) -> (r: Vec<u8>)
    requires
        sec@.len() <= 0x8000_0000,
        forall|i: int| 0 <= i < sec@.len() ==> local_ok(#[trigger] sec@[i]),
    ensures
        r@ == section_body(sec@, s, db.blocks@),
{
    let (palette, longs) = encode_section(sec.as_slice(), db);
    let items = palette_list(&palette);
    let mut bs: Vec<u8> = Vec::new();
    {
        let mut b = CompoundWriter::new(&mut bs);
        b.list_compounds("palette", &items);
        if palette.len() > 1 {
            b.long_array("data", longs.as_slice());
        }
        assert(has_resolved(b));
    }
    assert(bs@ =~= block_states_body(sec@, db.blocks@));
    let mut bio: Vec<u8> = Vec::new();
    let plains: [&str; 1] = ["minecraft:plains"];
    {
        let mut b = CompoundWriter::new(&mut bio);
        b.list_strings("palette", &plains);
        assert(has_resolved(b));
    }
    proof {
        assert(plains@.map_values(|s: &str| s.spec_bytes()) =~= seq!["minecraft:plains".spec_bytes()]);
    }
    let empty: Vec<u8> = Vec::new();
    let mut body: Vec<u8> = Vec::new();
    {
        let mut c = CompoundWriter::new(&mut body);
        c.byte("Y", s);
        c.compound("block_states", bs.as_slice());
        c.compound("biomes", bio.as_slice());
        c.byte_array("SkyLight", empty.as_slice());
        c.byte_array("BlockLight", empty.as_slice());
        assert(has_resolved(c));
    }
    assert(body@ =~= section_body(sec@, s, db.blocks@));
    body
}

/// The blocks of section `s`, as section-local blocks.
fn collect_section(blocks: &[(IVec3, u16)], s: i32) -> (r: Vec<(i32, i32, i32, u16)>)
    requires
        forall|i: int| 0 <= i < blocks@.len() ==> height_ok(#[trigger] blocks@[i]),
    ensures
        r@ == section_blocks(blocks@, s as int, blocks@.len() as int),
        r@.len() <= blocks@.len(),
        forall|i: int| 0 <= i < r@.len() ==> local_ok(#[trigger] r@[i]),
{
    let mut out: Vec<(i32, i32, i32, u16)> = Vec::new();
    let mut i: usize = 0;
    while i < blocks.len()
        invariant
            i <= blocks.len(),
            forall|j: int| 0 <= j < blocks@.len() ==> height_ok(#[trigger] blocks@[j]),
            out@ == section_blocks(blocks@, s as int, i as int),
            out@.len() <= i,
            forall|j: int| 0 <= j < out@.len() ==> local_ok(#[trigger] out@[j]),
        decreases blocks.len() - i,
    {
        let (p, id) = blocks[i];
        assert(height_ok(blocks@[i as int]));
        let sy = crate::geom::div_floor(p.y, 16);
        if sy == s {
            let lx = crate::geom::div_floor(p.x, 16);
            let lz = crate::geom::div_floor(p.z, 16);
            let b = (p.x - lx * 16, p.y - sy * 16, p.z - lz * 16, id);
            assert(b == local_of(blocks@[i as int]));
            out.push(b);
        }
        i = i + 1;
    }
    out
}

/// The NBT document of chunk column (`cx`, `cz`) holding `blocks` (world coordinates).
pub fn build_chunk_nbt(
    cx: i32,
    cz: i32,
    blocks: &[(IVec3, u16)],
    db: &BlockDatabase,
    settings: &crate::export::ExportSettings,
) -> (r: Vec<u8>)
    requires
        blocks@.len() <= 0x8000_0000,
        forall|i: int| 0 <= i < blocks@.len() ==> height_ok(#[trigger] blocks@[i]),
    ensures
        r@ == chunk_nbt(cx, cz, blocks@, db.blocks@, settings.version),
{
    let min_y = settings.version.min_y();
    let data_version = settings.version.data_version();
    let mut items: Vec<Vec<u8>> = Vec::new();
    let ghost f = |v: Vec<u8>| v@;
    let mut s: i32 = -4;
    while s < 20
        invariant
            -4 <= s <= 20,
            blocks@.len() <= 0x8000_0000,
            forall|i: int| 0 <= i < blocks@.len() ==> height_ok(#[trigger] blocks@[i]),
            f == (|v: Vec<u8>| v@),
            items@.map_values(f) == section_items(blocks@, db.blocks@, s + 4),
        decreases 20 - s,
    {
        let sec = collect_section(blocks, s);
        if sec.len() > 0 {
            let body = section_compound_body(&sec, s as i8, db);
            let ghost old_items = items@;
            items.push_compound(body.as_slice());
            assert(items@.map_values(f) =~= old_items.map_values(f).push(body@ + seq![TAG_END]));
        }
        s = s + 1;
    }
    let empty: Vec<u8> = Vec::new();
    let no_items: Vec<Vec<u8>> = Vec::new();
    let mut root_body: Vec<u8> = Vec::new();
    {
        let mut root = CompoundWriter::new(&mut root_body);
        root.int_tag("DataVersion", data_version);
        root.int_tag("xPos", cx);
        root.int_tag("yPos", min_y >> 4);
        root.int_tag("zPos", cz);
        root.string("Status", "minecraft:full");
        root.long("LastUpdate", 0);
        root.long("InhabitedTime", 0);
        root.list_compounds("sections", &items);
        root.compound("Heightmaps", empty.as_slice());
        root.list_compounds("block_entities", &no_items);
        assert(has_resolved(root));
    }
    proof {
        assert(min_y >> 4 == -4i32) by (bit_vector)
            requires
                min_y == -64i32,
        ;
        assert(no_items@.map_values(f) =~= Seq::<Seq<u8>>::empty());
    }
    let mut nbt: Vec<u8> = Vec::new();
    {
        let mut w = NbtWriter::new(&mut nbt);
        w.compound("", root_body.as_slice());
        assert(has_resolved(w));
    }
    assert(nbt@ =~= chunk_nbt(cx, cz, blocks@, db.blocks@, settings.version));
    nbt
}


// ---------------------------------------------------------------------------
// Region files
// ---------------------------------------------------------------------------

/// 4 KiB sectors taken by a chunk whose compressed payload has `len` bytes:
/// a 4-byte length, a 1-byte compression type, then the payload.
pub open spec fn sectors_for(len: nat) -> nat {
    (len + 5 + 4095) / 4096
}

/// The bytes of one chunk in a region file: the payload length plus one (modulo 2^32),
/// the compression type 2 (zlib), the payload, then zeros up to the sector boundary.
pub open spec fn chunk_frame(c: Seq<u8>) -> Seq<u8> {
    be_u32(((c.len() + 1) % 0x100000000) as u32) + seq![2u8] + c + Seq::new(
        (sectors_for(c.len()) * 4096 - (c.len() + 5)) as nat,
        |i: int| 0u8,
    )
}

/// Sector where chunk `j` starts: after the two header sectors and the chunks before it.
pub open spec fn sector_offset(chunks: Seq<(i32, i32, Seq<u8>)>, j: int) -> nat
    decreases j,
{
    if j <= 0 {
        2
    } else {
        sector_offset(chunks, j - 1) + sectors_for(chunks[j - 1].2.len())
    }
}

/// Index of a chunk column in the region's location table.
pub open spec fn location_slot(cx: i32, cz: i32) -> int {
    ((cz as int) % 32) * 32 + (cx as int) % 32
}

/// A location entry: the start sector in the upper 24 bits, the sector count in the low 8.
pub open spec fn location_entry(offset: nat, sectors: nat) -> u32 {
    ((offset * 256) % 0x100000000 + sectors % 256) as u32
}

/// The location table after recording the first `j` chunks.
pub open spec fn locations_upto(chunks: Seq<(i32, i32, Seq<u8>)>, j: int) -> Seq<u32>
    decreases j,
{
    if j <= 0 {
        Seq::new(1024, |i: int| 0u32)
    } else {
        locations_upto(chunks, j - 1).update(
            location_slot(chunks[j - 1].0, chunks[j - 1].1),
            location_entry(sector_offset(chunks, j - 1), sectors_for(chunks[j - 1].2.len())),
        )
    }
}

/// The frames of the first `j` chunks, in order.
pub open spec fn frames_upto(chunks: Seq<(i32, i32, Seq<u8>)>, j: int) -> Seq<u8>
    decreases j,
{
    if j <= 0 {
        Seq::empty()
    } else {
        frames_upto(chunks, j - 1) + chunk_frame(chunks[j - 1].2)
    }
}

/// A region file: the location table (1024 big-endian entries), a table of zero
/// timestamps, then every chunk frame in order.
pub open spec fn region_file(chunks: Seq<(i32, i32, Seq<u8>)>) -> Seq<u8> {
    concat(locations_upto(chunks, chunks.len() as int).map_values(|l: u32| be_u32(l))) + Seq::new(
        4096,
        |i: int| 0u8,
    ) + frames_upto(chunks, chunks.len() as int)
}

/// The region file's layout fits its counters: sector numbers fit in 32 bits.
pub open spec fn region_fits(chunks: Seq<(i32, i32, Seq<u8>)>) -> bool {
    &&& sector_offset(chunks, chunks.len() as int) <= u32::MAX
    &&& forall|j: int| 0 <= j < chunks.len() ==> (#[trigger] chunks[j]).2.len() + 4100 <= usize::MAX
}

proof fn lemma_sector_offset_mono(chunks: Seq<(i32, i32, Seq<u8>)>, a: int, b: int)
    requires
        0 <= a <= b <= chunks.len(),
    ensures
        sector_offset(chunks, a) <= sector_offset(chunks, b),
    decreases b - a,
{
    if a < b {
        lemma_sector_offset_mono(chunks, a, b - 1);
    }
}

// ---------------------------------------------------------------------------
// Reading a region file back
// ---------------------------------------------------------------------------

/// Pieces of four bytes each, one after the other: piece `i` lies at bytes `4i .. 4i + 4`.
proof fn lemma_concat_fixed4(s: Seq<Seq<u8>>, i: int)
    requires
        forall|k: int| 0 <= k < s.len() ==> (#[trigger] s[k]).len() == 4,
        0 <= i < s.len(),
    ensures
        concat(s).len() == 4 * s.len(),
        concat(s).subrange(4 * i, 4 * i + 4) == s[i],
    decreases s.len(),
{
    let t = s.drop_last();
    if t.len() > 0 {
        lemma_concat_fixed4(t, if i < t.len() { i } else { 0 });
    } else {
        assert(concat(t) =~= Seq::<u8>::empty());
    }
    assert(concat(s) == concat(t) + s.last());
    if i < t.len() {
        assert(t[i] == s[i]);
        assert(concat(s).subrange(4 * i, 4 * i + 4) =~= concat(t).subrange(4 * i, 4 * i + 4));
    } else {
        assert(concat(s).subrange(4 * i, 4 * i + 4) =~= s.last());
    }
}

/// A chunk frame fills whole sectors.
proof fn lemma_frame_len(c: Seq<u8>)
    ensures
        chunk_frame(c).len() == 4096 * sectors_for(c.len()),
        sectors_for(c.len()) >= 1,
{
    assert(sectors_for(c.len()) * 4096 >= c.len() + 5) by (nonlinear_arith)
        requires
            sectors_for(c.len()) == (c.len() + 5 + 4095) / 4096,
    ;
}

/// The frames of the first `j` chunks fill the sectors from 2 up to chunk `j`'s start.
proof fn lemma_frames_len(chunks: Seq<(i32, i32, Seq<u8>)>, j: int)
    requires
        0 <= j <= chunks.len(),
    ensures
        frames_upto(chunks, j).len() + 8192 == 4096 * sector_offset(chunks, j),
    decreases j,
{
    if j > 0 {
        lemma_frames_len(chunks, j - 1);
        lemma_frame_len(chunks[j - 1].2);
    }
}

/// Later chunks only append frames.
proof fn lemma_frames_prefix(chunks: Seq<(i32, i32, Seq<u8>)>, j: int, n: int)
    requires
        0 <= j <= n <= chunks.len(),
    ensures
        frames_upto(chunks, n).len() >= frames_upto(chunks, j).len(),
        frames_upto(chunks, n).subrange(0, frames_upto(chunks, j).len() as int) == frames_upto(
            chunks,
            j,
        ),
    decreases n - j,
{
    if j < n {
        lemma_frames_prefix(chunks, j, n - 1);
        let a = frames_upto(chunks, n - 1);
        let b = frames_upto(chunks, j);
        assert(frames_upto(chunks, n).subrange(0, b.len() as int) =~= a.subrange(0, b.len() as int));
    } else {
        assert(frames_upto(chunks, n).subrange(0, frames_upto(chunks, j).len() as int)
            =~= frames_upto(chunks, j));
    }
}

/// Whether no two chunks share a slot of the location table.
pub open spec fn distinct_slots(chunks: Seq<(i32, i32, Seq<u8>)>) -> bool {
    forall|a: int, b: int|
        0 <= a < chunks.len() && 0 <= b < chunks.len() && a != b ==> location_slot(
            (#[trigger] chunks[a]).0,
            chunks[a].1,
        ) != location_slot((#[trigger] chunks[b]).0, chunks[b].1)
}

/// The table keeps the entry of chunk `j` once later chunks, in other slots, are recorded.
proof fn lemma_location_kept(chunks: Seq<(i32, i32, Seq<u8>)>, j: int, n: int)
    requires
        0 <= j < n <= chunks.len(),
        distinct_slots(chunks),
    ensures
        locations_upto(chunks, n).len() == 1024,
        locations_upto(chunks, n)[location_slot(chunks[j].0, chunks[j].1)] == location_entry(
            sector_offset(chunks, j),
            sectors_for(chunks[j].2.len()),
        ),
    decreases n,
{
    lemma_locations_len(chunks, n - 1);
    if n - 1 > j {
        lemma_location_kept(chunks, j, n - 1);
        assert(location_slot(chunks[n - 1].0, chunks[n - 1].1) != location_slot(
            chunks[j].0,
            chunks[j].1,
        ));
    }
}

proof fn lemma_locations_len(chunks: Seq<(i32, i32, Seq<u8>)>, n: int)
    ensures
        locations_upto(chunks, n).len() == 1024,
    decreases n,
{
    if n > 0 {
        lemma_locations_len(chunks, n - 1);
    }
}

/// Reading chunk `j` back from a region file: the four bytes of its slot in the location
/// table hold an entry whose upper 24 bits name the sector where its frame starts and whose
/// low 8 bits give the sectors it takes, and the frame is there. This holds when no two chunks
/// share a slot and the numbers fit their fields.
pub proof fn lemma_region_read_back(chunks: Seq<(i32, i32, Seq<u8>)>, j: int)
    requires
        0 <= j < chunks.len(),
        distinct_slots(chunks),
        sector_offset(chunks, chunks.len() as int) < 0x1000000,
        sectors_for(chunks[j].2.len()) < 256,
    ensures
        ({
            let file = region_file(chunks);
            let slot = location_slot(chunks[j].0, chunks[j].1);
            let entry = locations_upto(chunks, chunks.len() as int)[slot];
            let start: int = (4096 * sector_offset(chunks, j)) as int;
            &&& 0 <= slot < 1024
            &&& file.subrange(4 * slot, 4 * slot + 4) == be_u32(entry)
            &&& entry / 256 == sector_offset(chunks, j)
            &&& entry % 256 == sectors_for(chunks[j].2.len())
            &&& file.subrange(start, start + 4096 * sectors_for(chunks[j].2.len()) as int) == chunk_frame(
                chunks[j].2,
            )
        }),
{
    let n = chunks.len() as int;
    let slot = location_slot(chunks[j].0, chunks[j].1);
    let off = sector_offset(chunks, j);
    let sec = sectors_for(chunks[j].2.len());
    lemma_location_kept(chunks, j, n);
    lemma_sector_offset_mono(chunks, j, n);
    let locs = locations_upto(chunks, n);
    let entry = locs[slot];
    // The location table.
    let pieces = locs.map_values(|l: u32| be_u32(l));
    lemma_concat_fixed4(pieces, slot);
    let head = concat(pieces);
    let file = region_file(chunks);
    let zeros = Seq::new(4096, |i: int| 0u8);
    assert(file == head + zeros + frames_upto(chunks, n));
    assert(file.subrange(4 * slot, 4 * slot + 4) =~= head.subrange(4 * slot, 4 * slot + 4));
    // The entry.
    assert(entry == location_entry(off, sec));
    assert(off * 256 < 0x100000000);
    assert((off * 256) % 0x100000000 == off * 256) by {
        vstd::arithmetic::div_mod::lemma_small_mod((off * 256) as nat, 0x100000000);
    }
    assert(sec % 256 == sec) by {
        vstd::arithmetic::div_mod::lemma_small_mod(sec, 256);
    }
    assert(entry as int == off * 256 + sec);
    assert(entry / 256 == off && entry % 256 == sec) by (nonlinear_arith)
        requires
            entry as int == off * 256 + sec,
            sec < 256,
    ;
    // The frame.
    lemma_frames_len(chunks, j);
    lemma_frames_prefix(chunks, j + 1, n);
    lemma_frame_len(chunks[j].2);
    let before = frames_upto(chunks, j);
    let upto = frames_upto(chunks, j + 1);
    let all = frames_upto(chunks, n);
    assert(upto == before + chunk_frame(chunks[j].2));
    let start: int = (4096 * off) as int;
    let flen: int = (4096 * sec) as int;
    let bl: int = before.len() as int;
    assert(all.subrange(bl, bl + flen) =~= upto.subrange(bl, bl + flen)) by {
        assert(all.subrange(0, upto.len() as int) == upto);
        assert forall|k: int| 0 <= k < flen implies #[trigger] all.subrange(bl, bl + flen)[k]
            == upto.subrange(bl, bl + flen)[k] by {
            assert(all.subrange(0, upto.len() as int)[bl + k] == all[bl + k]);
        }
    }
    assert(upto.subrange(bl, bl + flen) =~= chunk_frame(chunks[j].2));
    assert(file.subrange(start, start + flen) =~= all.subrange(bl, bl + flen));
}

/// Appends the frame of one chunk payload; returns the sectors it takes.
fn push_chunk_frame(out: &mut Vec<u8>, compressed: &Vec<u8>) -> (r: usize)
    requires
        compressed@.len() + 4100 <= usize::MAX,
    ensures
        final(out)@ == old(out)@ + chunk_frame(compressed@),
        r == sectors_for(compressed@.len()),
{
    let total_len = (compressed.len() + 1) as u32;
    proof {
        let m = (compressed.len() + 1) as u64;
        assert(m as u32 == (m % 0x100000000) as u32) by (bit_vector);
    }
    let mut chunk_data: Vec<u8> = Vec::new();
    push_u32_be(&mut chunk_data, total_len);
    chunk_data.push(2);
    push_bytes(&mut chunk_data, compressed.as_slice());
    let sectors_needed = (chunk_data.len() + 4095) / 4096;
    proof {
        assert(sectors_needed * 4096 >= chunk_data.len()) by (nonlinear_arith)
            requires
                sectors_needed == (chunk_data.len() + 4095) / 4096,
        ;
        assert(sectors_needed * 4096 <= chunk_data.len() + 4095) by (nonlinear_arith)
            requires
                sectors_needed == (chunk_data.len() + 4095) / 4096,
        ;
    }
    let ghost before = chunk_data@;
    chunk_data.resize(sectors_needed * 4096, 0);
    proof {
        assert(chunk_data@ =~= before + Seq::new(
            (sectors_needed * 4096 - before.len()) as nat,
            |i: int| 0u8,
        ));
        assert(chunk_data@ =~= chunk_frame(compressed@));
    }
    push_bytes(out, chunk_data.as_slice());
    sectors_needed
}

/// The location-table slot and entry of a chunk.
fn location_of(cx: i32, cz: i32, offset: u32, sectors: usize) -> (r: (usize, u32))
    requires
        sectors <= u32::MAX,
    ensures
        r.0 == location_slot(cx, cz),
        r.0 < 1024,
        r.1 == location_entry(offset as nat, sectors as nat),
{
    let qx = crate::geom::div_floor(cx, 32);
    let qz = crate::geom::div_floor(cz, 32);
    let lx = (cx - qx * 32) as usize;
    let lz = (cz - qz * 32) as usize;
    let s32 = sectors as u32;
    let entry = (offset << 8) | (s32 & 0xFF);
    proof {
        let o = offset;
        assert((o << 8) | (s32 & 0xff) == (((o as u64) * 256) % 0x100000000 + (s32 as u64) % 256) as u32)
            by (bit_vector);
    }
    (lz * 32 + lx, entry)
}

/// Chunk payloads as plain byte sequences.
pub open spec fn payload_views(chunks: Seq<(i32, i32, Vec<u8>)>) -> Seq<(i32, i32, Seq<u8>)> {
    chunks.map_values(|c: (i32, i32, Vec<u8>)| (c.0, c.1, c.2@))
}

/// Lays out a region file for chunk payloads that are already compressed.
pub fn region_file_bytes(chunks: &Vec<(i32, i32, Vec<u8>)>) -> (r: Vec<u8>)
    requires
        region_fits(payload_views(chunks@)),
    ensures
        r@ == region_file(payload_views(chunks@)),
{
    let ghost pv = payload_views(chunks@);
    let mut locations: Vec<u32> = Vec::new();
    let mut t: usize = 0;
    while t < 1024
        invariant
            t <= 1024,
            locations@.len() == t,
            forall|j: int| 0 <= j < t ==> locations@[j] == 0u32,
        decreases 1024 - t,
    {
        locations.push(0);
        t = t + 1;
    }
    assert(locations@ =~= locations_upto(pv, 0));
    let mut body: Vec<u8> = Vec::new();
    let mut sector_offset: u32 = 2;
    let mut j: usize = 0;
    while j < chunks.len()
        invariant
            pv == payload_views(chunks@),
            region_fits(pv),
            j <= chunks.len(),
            locations@ == locations_upto(pv, j as int),
            locations@.len() == 1024,
            body@ == frames_upto(pv, j as int),
            sector_offset == crate::region::sector_offset(pv, j as int),
        decreases chunks.len() - j,
    {
        let cx = chunks[j].0;
        let cz = chunks[j].1;
        proof {
            assert(pv[j as int].2 == chunks@[j as int].2@);
            assert(pv[j as int].2.len() + 4100 <= usize::MAX);
            lemma_sector_offset_mono(pv, j + 1, pv.len() as int);
        }
        let sectors_needed = push_chunk_frame(&mut body, &chunks[j].2);
        let (loc_idx, entry) = location_of(cx, cz, sector_offset, sectors_needed);
        let s32 = sectors_needed as u32;
        proof {
            assert(sector_offset + sectors_needed == crate::region::sector_offset(pv, j + 1));
        }
        locations.set(loc_idx, entry);
        sector_offset = sector_offset + s32;
        j = j + 1;
    }
    let mut out: Vec<u8> = Vec::new();
    let ghost f = |l: u32| be_u32(l);
    let mut k: usize = 0;
    while k < 1024
        invariant
            k <= 1024,
            locations@.len() == 1024,
            f == (|l: u32| be_u32(l)),
            out@ == concat(locations@.take(k as int).map_values(f)),
        decreases 1024 - k,
    {
        push_u32_be(&mut out, locations[k]);
        proof {
            assert(locations@.take(k + 1).map_values(f) == locations@.take(k as int).map_values(f).push(
                be_u32(locations@[k as int]),
            ));
            lemma_concat_push(locations@.take(k as int).map_values(f), be_u32(locations@[k as int]));
        }
        k = k + 1;
    }
    assert(locations@.take(1024) == locations@);
    let mut z: usize = 0;
    let ghost head = out@;
    while z < 4096
        invariant
            z <= 4096,
            out@ == head + Seq::new(z as nat, |i: int| 0u8),
        decreases 4096 - z,
    {
        out.push(0);
        z = z + 1;
        assert(out@ =~= head + Seq::new(z as nat, |i: int| 0u8));
    }
    push_bytes(&mut out, body.as_slice());
    assert(out@ =~= region_file(pv));
    out
}


// ---------------------------------------------------------------------------
// Region export
// ---------------------------------------------------------------------------

/// The blocks placed by the first `k` enumerated cells: every occupied cell with a block
/// id other than 0, moved by `offset`, whose height the world holds.
pub open spec fn world_blocks_upto(list: Seq<(IVec3, Voxel)>, offset: IVec3, k: int) -> Seq<(IVec3, u16)>
    decreases k,
{
    if k <= 0 {
        Seq::empty()
    } else {
        let prev = world_blocks_upto(list, offset, k - 1);
        let e = list[k - 1];
        let w = e.0.spec_add(offset);
        if e.1.occupied && e.1.block_id != 0 && -64 <= w.y < 320 {
            prev.push((w, e.1.block_id))
        } else {
            prev
        }
    }
}

pub open spec fn world_blocks(grid: VoxelGrid, offset: IVec3) -> Seq<(IVec3, u16)> {
    world_blocks_upto(grid.occupied_list(), offset, grid.occupied_list().len() as int)
}

/// Chunk column of a world block: x and z divided by 16, rounding down.
pub open spec fn chunk_key(p: IVec3) -> (i32, i32) {
    (((p.x as int) / 16) as i32, ((p.z as int) / 16) as i32)
}

/// Region of a chunk column: its coordinates divided by 32, rounding down.
pub open spec fn region_key(c: (i32, i32)) -> (i32, i32) {
    (((c.0 as int) / 32) as i32, ((c.1 as int) / 32) as i32)
}

/// The distinct keys among the first `n`, in order of first appearance.
pub open spec fn first_keys(keys: Seq<(i32, i32)>, n: int) -> Seq<(i32, i32)>
    decreases n,
{
    if n <= 0 {
        Seq::empty()
    } else {
        let prev = first_keys(keys, n - 1);
        if prev.contains(keys[n - 1]) {
            prev
        } else {
            prev.push(keys[n - 1])
        }
    }
}

/// The chunk column of each block.
pub open spec fn block_chunk_keys(blocks: Seq<(IVec3, u16)>) -> Seq<(i32, i32)> {
    blocks.map_values(|b: (IVec3, u16)| chunk_key(b.0))
}

/// The blocks among the first `n` that lie in chunk column `key`, in order.
pub open spec fn blocks_in_chunk(blocks: Seq<(IVec3, u16)>, key: (i32, i32), n: int) -> Seq<(IVec3, u16)>
    decreases n,
{
    if n <= 0 {
        Seq::empty()
    } else {
        let prev = blocks_in_chunk(blocks, key, n - 1);
        if chunk_key(blocks[n - 1].0) == key {
            prev.push(blocks[n - 1])
        } else {
            prev
        }
    }
}

/// The chunk columns that hold a block, in order of first appearance.
pub open spec fn chunk_columns(blocks: Seq<(IVec3, u16)>) -> Seq<(i32, i32)> {
    first_keys(block_chunk_keys(blocks), blocks.len() as int)
}

/// The regions that hold a chunk column, in order of first appearance.
pub open spec fn regions_of(cols: Seq<(i32, i32)>) -> Seq<(i32, i32)> {
    first_keys(cols.map_values(|c: (i32, i32)| region_key(c)), cols.len() as int)
}

/// Positions (among the first `n`) of the chunk columns that belong to region `r`.
pub open spec fn region_members(cols: Seq<(i32, i32)>, r: (i32, i32), n: int) -> Seq<int>
    decreases n,
{
    if n <= 0 {
        Seq::empty()
    } else {
        let prev = region_members(cols, r, n - 1);
        if region_key(cols[n - 1]) == r {
            prev.push(n - 1)
        } else {
            prev
        }
    }
}

/// The compressed payload of chunk column `key`.
pub open spec fn payload_for(
    blocks: Seq<(IVec3, u16)>,
    db: Seq<BlockDef>,
    version: MinecraftVersion,
    key: (i32, i32),
) -> (i32, i32, Seq<u8>) {
    (
        key.0,
        key.1,
        zlib_of(chunk_nbt(key.0, key.1, blocks_in_chunk(blocks, key, blocks.len() as int), db, version)),
    )
}

/// The compressed chunk payloads of region `r`, in chunk-column order.
pub open spec fn region_payloads(
    blocks: Seq<(IVec3, u16)>,
    db: Seq<BlockDef>,
    version: MinecraftVersion,
    r: (i32, i32),
) -> Seq<(i32, i32, Seq<u8>)> {
    let cols = chunk_columns(blocks);
    region_members(cols, r, cols.len() as int).map_values(
        |m: int| payload_for(blocks, db, version, cols[m]),
    )
}

proof fn lemma_first_keys_contains(keys: Seq<(i32, i32)>, n: int, k: (i32, i32))
    requires
        0 <= n <= keys.len(),
    ensures
        first_keys(keys, n).contains(k) <==> exists|i: int| 0 <= i < n && keys[i] == k,
        first_keys(keys, n).no_duplicates(),
    decreases n,
{
    if n > 0 {
        lemma_first_keys_contains(keys, n - 1, k);
        let prev = first_keys(keys, n - 1);
        let cur = first_keys(keys, n);
        let last = keys[n - 1];
        assert forall|j: int| 0 <= j < prev.len() implies #[trigger] cur[j] == prev[j] by {}
        if cur.contains(k) {
            if !prev.contains(k) {
                let j = choose|j: int| 0 <= j < cur.len() && cur[j] == k;
                if j < prev.len() {
                    assert(prev[j] == k);
                }
                assert(k == last);
                assert(keys[n - 1] == k);
            } else {
                let i = choose|i: int| 0 <= i < n - 1 && keys[i] == k;
                assert(0 <= i < n && keys[i] == k);
            }
        }
        if exists|i: int| 0 <= i < n && keys[i] == k {
            let i = choose|i: int| 0 <= i < n && keys[i] == k;
            if i < n - 1 {
                assert(prev.contains(k));
                let j = choose|j: int| 0 <= j < prev.len() && prev[j] == k;
                assert(cur[j] == k);
            } else if prev.contains(k) {
                assert(cur == prev);
            } else {
                assert(cur[prev.len() as int] == k);
            }
        }
        if !prev.contains(last) {
            assert forall|a: int, b: int| 0 <= a < cur.len() && 0 <= b < cur.len() && a != b implies cur[a]
                != cur[b] by {
                if a < prev.len() && b < prev.len() {
                } else if a < prev.len() {
                    assert(prev[a] == cur[a]);
                } else {
                    assert(prev[b] == cur[b]);
                }
            }
        }
    }
}

/// Finds the group stored under `key`.
fn find_group<T>(groups: &Vec<((i32, i32), T)>, key: (i32, i32)) -> (r: Option<usize>)
    ensures
        r matches Some(g) ==> g < groups@.len() && groups@[g as int].0 == key,
        r is None ==> forall|g: int| 0 <= g < groups@.len() ==> (#[trigger] groups@[g]).0 != key,
{
    let mut g: usize = 0;
    while g < groups.len()
        invariant
            g <= groups.len(),
            forall|h: int| 0 <= h < g ==> (#[trigger] groups@[h]).0 != key,
        decreases groups.len() - g,
    {
        if groups[g].0.0 == key.0 && groups[g].0.1 == key.1 {
            return Some(g);
        }
        g = g + 1;
    }
    None
}

/// The placed blocks of the grid, in enumeration order, at world positions.
fn collect_world_blocks(grid: &VoxelGrid, settings: &ExportSettings) -> (r: Vec<(IVec3, u16)>)
    requires
        grid.wf(),
        forall|k: int|
            0 <= k < grid.occupied_list().len() ==> (#[trigger] grid.occupied_list()[k]).0.add_fits(
                settings.offset,
            ),
    ensures
        r@ == world_blocks(*grid, settings.offset),
        r@.len() <= grid.occupied_list().len(),
{
    let cells = grid.iter_occupied();
    let min_y = settings.version.min_y();
    let max_y = settings.version.max_y();
    let mut out: Vec<(IVec3, u16)> = Vec::new();
    let mut k: usize = 0;
    while k < cells.len()
        invariant
            cells@ == grid.occupied_list(),
            min_y == -64,
            max_y == 320,
            k <= cells.len(),
            forall|j: int| 0 <= j < cells@.len() ==> (#[trigger] cells@[j]).0.add_fits(settings.offset),
            out@ == world_blocks_upto(cells@, settings.offset, k as int),
            out@.len() <= k,
        decreases cells.len() - k,
    {
        let (pos, voxel) = cells[k];
        assert(cells@[k as int].0.add_fits(settings.offset));
        if voxel.occupied && voxel.block_id != 0 {
            let w = pos.add(settings.offset);
            if w.y >= min_y && w.y < max_y {
                out.push((w, voxel.block_id));
            }
        }
        k = k + 1;
    }
    out
}

/// Groups blocks by chunk column, columns in order of first appearance.
fn group_by_chunk(blocks: &Vec<(IVec3, u16)>) -> (r: Vec<((i32, i32), Vec<(IVec3, u16)>)>)
    ensures
        r@.len() == chunk_columns(blocks@).len(),
        forall|g: int|
            0 <= g < r@.len() ==> (#[trigger] r@[g]).0 == chunk_columns(blocks@)[g] && r@[g].1@
                == blocks_in_chunk(blocks@, r@[g].0, blocks@.len() as int),
{
    let ghost keys = block_chunk_keys(blocks@);
    let mut groups: Vec<((i32, i32), Vec<(IVec3, u16)>)> = Vec::new();
    let mut i: usize = 0;
    while i < blocks.len()
        invariant
            i <= blocks.len(),
            keys == block_chunk_keys(blocks@),
            groups@.len() == first_keys(keys, i as int).len(),
            forall|g: int|
                0 <= g < groups@.len() ==> (#[trigger] groups@[g]).0 == first_keys(keys, i as int)[g]
                    && groups@[g].1@ == blocks_in_chunk(blocks@, groups@[g].0, i as int),
        decreases blocks.len() - i,
    {
        let b = blocks[i];
        let cx = crate::geom::div_floor(b.0.x, 16);
        let cz = crate::geom::div_floor(b.0.z, 16);
        let key = (cx, cz);
        assert(key == chunk_key(b.0));
        assert(keys[i as int] == key);
        let ghost fk = first_keys(keys, i as int);
        proof {
            lemma_first_keys_contains(keys, i as int, key);
        }
        match find_group(&groups, key) {
            Some(g) => {
                let ghost old_groups = groups@;
                groups[g].1.push(b);
                proof {
                    assert(fk.contains(key)) by {
                        assert(fk[g as int] == key);
                    }
                    assert(first_keys(keys, i + 1) == fk);
                    assert forall|h: int| 0 <= h < groups@.len() implies (#[trigger] groups@[h]).0
                        == first_keys(keys, i + 1)[h] && groups@[h].1@ == blocks_in_chunk(
                        blocks@,
                        groups@[h].0,
                        i + 1,
                    ) by {
                        assert(groups@[h].0 == old_groups[h].0);
                    }
                }
            },
            None => {
                let ghost old_groups = groups@;
                let mut v: Vec<(IVec3, u16)> = Vec::new();
                v.push(b);
                groups.push((key, v));
                proof {
                    assert(!fk.contains(key)) by {
                        if fk.contains(key) {
                            let g = choose|g: int| 0 <= g < fk.len() && fk[g] == key;
                            assert(old_groups[g].0 == key);
                        }
                    }
                    assert(first_keys(keys, i + 1) == fk.push(key));
                    lemma_blocks_in_chunk_absent(blocks@, key, i as int);
                    assert forall|h: int| 0 <= h < groups@.len() implies (#[trigger] groups@[h]).0
                        == first_keys(keys, i + 1)[h] && groups@[h].1@ == blocks_in_chunk(
                        blocks@,
                        groups@[h].0,
                        i + 1,
                    ) by {
                        if h < old_groups.len() {
                            assert(groups@[h] == old_groups[h]);
                        } else {
                            assert(groups@[h].1@ =~= seq![b]);
                        }
                    }
                }
            },
        }
        i = i + 1;
    }
    groups
}

/// A key that did not occur yet has no blocks.
proof fn lemma_blocks_in_chunk_absent(blocks: Seq<(IVec3, u16)>, key: (i32, i32), n: int)
    requires
        0 <= n <= blocks.len(),
        !first_keys(block_chunk_keys(blocks), n).contains(key),
    ensures
        blocks_in_chunk(blocks, key, n) == Seq::<(IVec3, u16)>::empty(),
    decreases n,
{
    if n > 0 {
        lemma_first_keys_contains(block_chunk_keys(blocks), n, key);
        lemma_first_keys_contains(block_chunk_keys(blocks), n - 1, key);
        if chunk_key(blocks[n - 1].0) == key {
            assert(block_chunk_keys(blocks)[n - 1] == key);
        }
        lemma_blocks_in_chunk_absent(blocks, key, n - 1);
    }
}

/// Groups chunk columns by region: each region with the positions of its columns.
fn group_by_region(cols: &Vec<(i32, i32)>) -> (r: Vec<((i32, i32), Vec<usize>)>)
    ensures
        r@.len() == regions_of(cols@).len(),
        forall|t: int|
            0 <= t < r@.len() ==> (#[trigger] r@[t]).0 == regions_of(cols@)[t] && r@[t].1@.map_values(
                |m: usize| m as int,
            ) == region_members(cols@, r@[t].0, cols@.len() as int),
{
    let ghost keys = cols@.map_values(|c: (i32, i32)| region_key(c));
    let ghost f = |m: usize| m as int;
    let mut groups: Vec<((i32, i32), Vec<usize>)> = Vec::new();
    let mut i: usize = 0;
    while i < cols.len()
        invariant
            i <= cols.len(),
            keys == cols@.map_values(|c: (i32, i32)| region_key(c)),
            f == (|m: usize| m as int),
            groups@.len() == first_keys(keys, i as int).len(),
            forall|t: int|
                0 <= t < groups@.len() ==> (#[trigger] groups@[t]).0 == first_keys(keys, i as int)[t]
                    && groups@[t].1@.map_values(f) == region_members(cols@, groups@[t].0, i as int),
        decreases cols.len() - i,
    {
        let c = cols[i];
        let rx = crate::geom::div_floor(c.0, 32);
        let rz = crate::geom::div_floor(c.1, 32);
        let key = (rx, rz);
        assert(key == region_key(c));
        assert(keys[i as int] == key);
        let ghost fk = first_keys(keys, i as int);
        proof {
            lemma_first_keys_contains(keys, i as int, key);
        }
        match find_group(&groups, key) {
            Some(g) => {
                let ghost old_groups = groups@;
                groups[g].1.push(i);
                proof {
                    assert(fk.contains(key)) by {
                        assert(fk[g as int] == key);
                    }
                    assert(first_keys(keys, i + 1) == fk);
                    assert forall|t: int| 0 <= t < groups@.len() implies (#[trigger] groups@[t]).0
                        == first_keys(keys, i + 1)[t] && groups@[t].1@.map_values(f)
                        == region_members(cols@, groups@[t].0, i + 1) by {
                        assert(groups@[t].0 == old_groups[t].0);
                        if t == g {
                            assert(groups@[t].1@.map_values(f) =~= old_groups[t].1@.map_values(f).push(
                                i as int,
                            ));
                        }
                    }
                }
            },
            None => {
                let ghost old_groups = groups@;
                let mut v: Vec<usize> = Vec::new();
                v.push(i);
                groups.push((key, v));
                proof {
                    assert(!fk.contains(key)) by {
                        if fk.contains(key) {
                            let g = choose|g: int| 0 <= g < fk.len() && fk[g] == key;
                            assert(old_groups[g].0 == key);
                        }
                    }
                    assert(first_keys(keys, i + 1) == fk.push(key));
                    lemma_region_members_absent(cols@, key, i as int);
                    assert forall|t: int| 0 <= t < groups@.len() implies (#[trigger] groups@[t]).0
                        == first_keys(keys, i + 1)[t] && groups@[t].1@.map_values(f)
                        == region_members(cols@, groups@[t].0, i + 1) by {
                        if t < old_groups.len() {
                            assert(groups@[t] == old_groups[t]);
                        } else {
                            assert(groups@[t].1@.map_values(f) =~= seq![i as int]);
                        }
                    }
                }
            },
        }
        i = i + 1;
    }
    groups
}

proof fn lemma_region_members_absent(cols: Seq<(i32, i32)>, key: (i32, i32), n: int)
    requires
        0 <= n <= cols.len(),
        !first_keys(cols.map_values(|c: (i32, i32)| region_key(c)), n).contains(key),
    ensures
        region_members(cols, key, n) == Seq::<int>::empty(),
    decreases n,
{
    if n > 0 {
        let keys = cols.map_values(|c: (i32, i32)| region_key(c));
        lemma_first_keys_contains(keys, n, key);
        lemma_first_keys_contains(keys, n - 1, key);
        if region_key(cols[n - 1]) == key {
            assert(keys[n - 1] == key);
        }
        lemma_region_members_absent(cols, key, n - 1);
    }
}


pub open spec fn all_heights_ok(s: Seq<(IVec3, u16)>) -> bool {
    forall|i: int| 0 <= i < s.len() ==> height_ok(#[trigger] s[i])
}

proof fn lemma_world_blocks(list: Seq<(IVec3, Voxel)>, offset: IVec3, k: int)
    requires
        0 <= k <= list.len(),
    ensures
        all_heights_ok(world_blocks_upto(list, offset, k)),
        world_blocks_upto(list, offset, k).len() <= k,
    decreases k,
{
    if k > 0 {
        lemma_world_blocks(list, offset, k - 1);
    }
}

proof fn lemma_blocks_in_chunk(blocks: Seq<(IVec3, u16)>, key: (i32, i32), n: int)
    requires
        0 <= n <= blocks.len(),
        all_heights_ok(blocks),
    ensures
        all_heights_ok(blocks_in_chunk(blocks, key, n)),
        blocks_in_chunk(blocks, key, n).len() <= n,
    decreases n,
{
    if n > 0 {
        lemma_blocks_in_chunk(blocks, key, n - 1);
        assert(height_ok(blocks[n - 1]));
    }
}

/// Whether the region file for these payloads fits its 32-bit sector counters.
pub fn region_layout_fits(chunks: &Vec<(i32, i32, Vec<u8>)>) -> (r: bool)
    ensures
        r == region_fits(payload_views(chunks@)),
{
    let ghost pv = payload_views(chunks@);
    let mut total: u64 = 2;
    let mut j: usize = 0;
    while j < chunks.len()
        invariant
            pv == payload_views(chunks@),
            j <= chunks.len(),
            total == sector_offset(pv, j as int),
            total <= u32::MAX,
            forall|i: int| 0 <= i < j ==> (#[trigger] pv[i]).2.len() + 4100 <= usize::MAX,
        decreases chunks.len() - j,
    {
        let len = chunks[j].2.len();
        assert(pv[j as int].2.len() == len);
        if len > usize::MAX - 4100 {
            return false;
        }
        let sectors = (len + 5 + 4095) / 4096;
        if sectors as u64 > 0xffff_ffff - total {
            proof {
                lemma_sector_offset_mono(pv, j + 1, pv.len() as int);
            }
            return false;
        }
        total = total + sectors as u64;
        j = j + 1;
    }
    true
}

/// Builds and compresses the chunk documents of the listed chunk groups, in order.
fn compress_members(
    groups: &Vec<((i32, i32), Vec<(IVec3, u16)>)>,
    members: &Vec<usize>,
    Ghost(blocks): Ghost<Seq<(IVec3, u16)>>,
    db: &BlockDatabase,
    settings: &ExportSettings,
) -> (r: Vec<(i32, i32, Vec<u8>)>)
    requires
        forall|key: (i32, i32)| #[trigger]
            column_blocks_ok(blocks_in_chunk(blocks, key, blocks.len() as int)),
        forall|i: int| 0 <= i < members@.len() ==> (#[trigger] members@[i]) < groups@.len(),
        forall|h: int|
            0 <= h < groups@.len() ==> (#[trigger] groups@[h]).1@ == blocks_in_chunk(
                blocks,
                groups@[h].0,
                blocks.len() as int,
            ),
    ensures
        payload_views(r@) == members@.map_values(
            |m: usize| payload_for(blocks, db.blocks@, settings.version, groups@[m as int].0),
        ),
{
    let ghost f = |m: usize| payload_for(blocks, db.blocks@, settings.version, groups@[m as int].0);
    let mut payloads: Vec<(i32, i32, Vec<u8>)> = Vec::new();
    let mut q: usize = 0;
    while q < members.len()
        invariant
            q <= members.len(),
            forall|key: (i32, i32)| #[trigger]
                column_blocks_ok(blocks_in_chunk(blocks, key, blocks.len() as int)),
            forall|i: int| 0 <= i < members@.len() ==> (#[trigger] members@[i]) < groups@.len(),
            forall|h: int|
                0 <= h < groups@.len() ==> (#[trigger] groups@[h]).1@ == blocks_in_chunk(
                    blocks,
                    groups@[h].0,
                    blocks.len() as int,
                ),
            f == (|m: usize| payload_for(blocks, db.blocks@, settings.version, groups@[m as int].0)),
            payload_views(payloads@) == members@.take(q as int).map_values(f),
        decreases members.len() - q,
    {
        let m = members[q];
        assert(m < groups@.len());
        let key = groups[m].0;
        let blist = &groups[m].1;
        proof {
            let col = blocks_in_chunk(blocks, key, blocks.len() as int);
            assert(column_blocks_ok(col));
            lemma_column_count(col);
            assert forall|i: int| 0 <= i < col.len() implies height_ok(#[trigger] col[i]) by {}
        }
        let nbt = build_chunk_nbt(key.0, key.1, blist.as_slice(), db, settings);
        let z = zlib_compress(nbt.as_slice());
        let ghost old_payloads = payloads@;
        payloads.push((key.0, key.1, z));
        proof {
            assert(payload_views(payloads@) =~= payload_views(old_payloads).push((key.0, key.1, z@)));
            assert(members@.take(q + 1).map_values(f) =~= members@.take(q as int).map_values(f).push(
                f(m),
            ));
        }
        q = q + 1;
    }
    assert(members@.take(members@.len() as int) =~= members@);
    payloads
}

/// The region files of the placed blocks: one `(x, z, bytes)` triple per region, regions in
/// order of first appearance; inside each file, chunk columns in order of first appearance.
#[verifier::spinoff_prover]
#[verifier::rlimit(40)]
pub fn export_region(
    grid: &VoxelGrid,
    db: &BlockDatabase,
    settings: &ExportSettings,
) -> (r: Result<Vec<(i32, i32, Vec<u8>)>, ExportError>)
    requires
        grid.wf(),
        grid.chunks.len() > 0 ==> grid_min(*grid).add_fits(settings.offset) && grid_max(
            *grid,
        ).add_fits(settings.offset),
    ensures
        r == Err::<Vec<(i32, i32, Vec<u8>)>, ExportError>(ExportError::EmptyGrid) <==> grid.chunks.len()
            == 0,
        grid.chunks.len() > 0 ==> r is Ok || r == Err::<Vec<(i32, i32, Vec<u8>)>, ExportError>(
            ExportError::RegionTooLarge,
        ),
        r matches Ok(files) ==> {
            let blocks = world_blocks(*grid, settings.offset);
            let rs = regions_of(chunk_columns(blocks));
            &&& files@.len() == rs.len()
            &&& forall|t: int|
                0 <= t < files@.len() ==> {
                    &&& (#[trigger] files@[t]).0 == rs[t].0
                    &&& files@[t].1 == rs[t].1
                    &&& files@[t].2@ == region_file(
                        region_payloads(blocks, db.blocks@, settings.version, rs[t]),
                    )
                    &&& region_fits(region_payloads(blocks, db.blocks@, settings.version, rs[t]))
                }
        },
        r == Err::<Vec<(i32, i32, Vec<u8>)>, ExportError>(ExportError::RegionTooLarge) ==> {
            let blocks = world_blocks(*grid, settings.offset);
            let rs = regions_of(chunk_columns(blocks));
            exists|t: int|
                0 <= t < rs.len() && !region_fits(
                    #[trigger] region_payloads(blocks, db.blocks@, settings.version, rs[t]),
                )
        },
{
    let (min, max) = match grid.bounds_voxel() {
        Some(b) => b,
        None => {
            return Err(ExportError::EmptyGrid);
        },
    };
    let ghost list = grid.occupied_list();
    proof {
        crate::voxel::lemma_min_on_axis(list, 0);
        crate::voxel::lemma_min_on_axis(list, 1);
        crate::voxel::lemma_min_on_axis(list, 2);
        crate::voxel::lemma_max_on_axis(list, 0);
        crate::voxel::lemma_max_on_axis(list, 1);
        crate::voxel::lemma_max_on_axis(list, 2);
        assert forall|k: int| 0 <= k < list.len() implies (#[trigger] list[k]).0.add_fits(
            settings.offset,
        ) by {
            assert(min_le(list, k));
        }
    }
    let blocks = collect_world_blocks(grid, settings);
    proof {
        lemma_world_blocks(list, settings.offset, list.len() as int);
        assert forall|key: (i32, i32)| #[trigger]
            column_blocks_ok(blocks_in_chunk(blocks@, key, blocks@.len() as int)) by {
            lemma_export_column_ok(*grid, settings.offset, key);
        }
    }
    let groups = group_by_chunk(&blocks);
    let ghost cols_spec = chunk_columns(blocks@);
    let mut cols: Vec<(i32, i32)> = Vec::new();
    let mut g: usize = 0;
    while g < groups.len()
        invariant
            g <= groups.len(),
            cols@ == cols_spec.take(g as int),
            groups@.len() == cols_spec.len(),
            forall|h: int| 0 <= h < groups@.len() ==> (#[trigger] groups@[h]).0 == cols_spec[h],
        decreases groups.len() - g,
    {
        cols.push(groups[g].0);
        assert(cols@ =~= cols_spec.take(g + 1));
        g = g + 1;
    }
    assert(cols@ =~= cols_spec);
    let regions = group_by_region(&cols);
    let ghost rs = regions_of(cols_spec);
    let ghost n = blocks@.len() as int;
    let mut files: Vec<(i32, i32, Vec<u8>)> = Vec::new();
    let mut t: usize = 0;
    while t < regions.len()
        invariant
            t <= regions.len(),
            cols@ == cols_spec,
            cols_spec == chunk_columns(blocks@),
            n == blocks@.len(),
            forall|key: (i32, i32)| #[trigger]
                column_blocks_ok(blocks_in_chunk(blocks@, key, blocks@.len() as int)),
            all_heights_ok(blocks@),
            blocks@ == world_blocks(*grid, settings.offset),
            rs == regions_of(cols_spec),
            groups@.len() == cols_spec.len(),
            forall|h: int|
                0 <= h < groups@.len() ==> (#[trigger] groups@[h]).0 == cols_spec[h] && groups@[h].1@
                    == blocks_in_chunk(blocks@, groups@[h].0, n),
            regions@.len() == rs.len(),
            forall|u: int|
                0 <= u < regions@.len() ==> (#[trigger] regions@[u]).0 == rs[u] && regions@[u].1@.map_values(
                    |m: usize| m as int,
                ) == region_members(cols_spec, regions@[u].0, cols_spec.len() as int),
            files@.len() == t,
            forall|u: int|
                0 <= u < t ==> {
                    &&& (#[trigger] files@[u]).0 == rs[u].0
                    &&& files@[u].1 == rs[u].1
                    &&& files@[u].2@ == region_file(
                        region_payloads(blocks@, db.blocks@, settings.version, rs[u]),
                    )
                    &&& region_fits(region_payloads(blocks@, db.blocks@, settings.version, rs[u]))
                },
        decreases regions.len() - t,
    {
        let members = &regions[t].1;
        let ghost mem = region_members(cols_spec, rs[t as int], cols_spec.len() as int);
        proof {
            assert(members@.map_values(|m: usize| m as int) == mem);
            lemma_region_members_bound(cols_spec, rs[t as int], cols_spec.len() as int);
            assert forall|i: int| 0 <= i < members@.len() implies (#[trigger] members@[i]) < groups@.len() by {
                assert(mem[i] == members@[i] as int);
            }
        }
        let payloads = compress_members(&groups, members, Ghost(blocks@), db, settings);
        proof {
            let target = region_payloads(blocks@, db.blocks@, settings.version, rs[t as int]);
            assert forall|i: int| 0 <= i < target.len() implies #[trigger] target[i] == payload_views(
                payloads@,
            )[i] by {
                assert(mem[i] == members@[i] as int);
            }
            assert(payload_views(payloads@) =~= target);
        }
        if !region_layout_fits(&payloads) {
            return Err(ExportError::RegionTooLarge);
        }
        let bytes = region_file_bytes(&payloads);
        files.push((regions[t].0.0, regions[t].0.1, bytes));
        t = t + 1;
    }
    Ok(files)
}

/// The helper fact that each occupied cell lies between the corners.
pub open spec fn min_le(list: Seq<(IVec3, Voxel)>, k: int) -> bool {
    &&& crate::voxel::min_on_axis(list, 0) <= list[k].0.x <= crate::voxel::max_on_axis(list, 0)
    &&& crate::voxel::min_on_axis(list, 1) <= list[k].0.y <= crate::voxel::max_on_axis(list, 1)
    &&& crate::voxel::min_on_axis(list, 2) <= list[k].0.z <= crate::voxel::max_on_axis(list, 2)
}

proof fn lemma_region_members_bound(cols: Seq<(i32, i32)>, r: (i32, i32), n: int)
    requires
        0 <= n <= cols.len(),
    ensures
        forall|i: int|
            0 <= i < region_members(cols, r, n).len() ==> 0 <= #[trigger] region_members(cols, r, n)[i] < n,
    decreases n,
{
    if n > 0 {
        lemma_region_members_bound(cols, r, n - 1);
        let prev = region_members(cols, r, n - 1);
        let cur = region_members(cols, r, n);
        assert forall|i: int| 0 <= i < cur.len() implies 0 <= #[trigger] cur[i] < n by {
            if i < prev.len() {
                assert(cur[i] == prev[i]);
            }
        }
    }
}


/// The members of a region are listed in increasing order, each in the region.
proof fn lemma_region_members_sorted(cols: Seq<(i32, i32)>, r: (i32, i32), n: int)
    requires
        0 <= n <= cols.len(),
    ensures
        forall|i: int, j: int|
            0 <= i < j < region_members(cols, r, n).len() ==> #[trigger] region_members(cols, r, n)[i]
                < #[trigger] region_members(cols, r, n)[j],
        forall|i: int|
            0 <= i < region_members(cols, r, n).len() ==> region_key(
                cols[#[trigger] region_members(cols, r, n)[i]],
            ) == r,
    decreases n,
{
    if n > 0 {
        lemma_region_members_sorted(cols, r, n - 1);
        lemma_region_members_bound(cols, r, n - 1);
        let prev = region_members(cols, r, n - 1);
        let cur = region_members(cols, r, n);
        assert forall|i: int| 0 <= i < prev.len() implies #[trigger] cur[i] == prev[i] by {}
        assert forall|i: int, j: int| 0 <= i < j < cur.len() implies #[trigger] cur[i]
            < #[trigger] cur[j] by {
            if j < prev.len() {
                assert(cur[i] == prev[i] && cur[j] == prev[j]);
            } else {
                assert(cur[i] == prev[i]);
                assert(prev[i] < n - 1);
            }
        }
        assert forall|i: int| 0 <= i < cur.len() implies region_key(cols[#[trigger] cur[i]]) == r by {
            if i < prev.len() {
                assert(cur[i] == prev[i]);
            }
        }
    }
}

/// Two chunk columns of one region in the same table slot are the same column.
proof fn lemma_slot_determines_column(a: (i32, i32), b: (i32, i32))
    requires
        region_key(a) == region_key(b),
        location_slot(a.0, a.1) == location_slot(b.0, b.1),
    ensures
        a == b,
{
    let (ax, az, bx, bz) = (a.0 as int, a.1 as int, b.0 as int, b.1 as int);
    assert(ax == 32 * (ax / 32) + ax % 32 && 0 <= ax % 32 < 32) by (nonlinear_arith);
    assert(az == 32 * (az / 32) + az % 32 && 0 <= az % 32 < 32) by (nonlinear_arith);
    assert(bx == 32 * (bx / 32) + bx % 32 && 0 <= bx % 32 < 32) by (nonlinear_arith);
    assert(bz == 32 * (bz / 32) + bz % 32 && 0 <= bz % 32 < 32) by (nonlinear_arith);
    assert(ax / 32 == bx / 32 && az / 32 == bz / 32);
    let (p, q, u, v) = (az % 32, ax % 32, bz % 32, bx % 32);
    assert(p == u && q == v) by (nonlinear_arith)
        requires
            p * 32 + q == u * 32 + v,
            0 <= p < 32,
            0 <= q < 32,
            0 <= u < 32,
            0 <= v < 32,
    ;
}

/// The chunks that export puts in one region file each have a slot of their own, so every
/// chunk of an exported region can be read back through the location table.
pub proof fn lemma_region_slots_distinct(
    blocks: Seq<(IVec3, u16)>,
    db: Seq<BlockDef>,
    version: MinecraftVersion,
    r: (i32, i32),
)
    ensures
        distinct_slots(region_payloads(blocks, db, version, r)),
{
    let cols = chunk_columns(blocks);
    let n = cols.len() as int;
    let members = region_members(cols, r, n);
    let pays = region_payloads(blocks, db, version, r);
    lemma_region_members_sorted(cols, r, n);
    lemma_region_members_bound(cols, r, n);
    lemma_first_keys_contains(block_chunk_keys(blocks), blocks.len() as int, (0i32, 0i32));
    assert forall|a: int, b: int|
        0 <= a < pays.len() && 0 <= b < pays.len() && a != b implies location_slot(
        (#[trigger] pays[a]).0,
        pays[a].1,
    ) != location_slot((#[trigger] pays[b]).0, pays[b].1) by {
        let ma = members[a];
        let mb = members[b];
        assert(pays[a] == payload_for(blocks, db, version, cols[ma]));
        assert(pays[b] == payload_for(blocks, db, version, cols[mb]));
        if a < b {
            assert(ma < mb);
        } else {
            assert(mb < ma);
        }
        assert(region_key(cols[ma]) == r && region_key(cols[mb]) == r);
        if location_slot(pays[a].0, pays[a].1) == location_slot(pays[b].0, pays[b].1) {
            lemma_slot_determines_column(cols[ma], cols[mb]);
            assert(cols[ma] == cols[mb]);
        }
    }
}


/// Every world block among the first `k` comes from an occupied cell among the first `k`,
/// moved by the offset.
proof fn lemma_world_blocks_origin(list: Seq<(IVec3, Voxel)>, offset: IVec3, k: int)
    requires
        0 <= k <= list.len(),
    ensures
        forall|j: int|
            0 <= j < world_blocks_upto(list, offset, k).len() ==> exists|m: int|
                0 <= m < k && (#[trigger] world_blocks_upto(list, offset, k)[j]).0
                    == list[m].0.spec_add(offset),
    decreases k,
{
    if k > 0 {
        lemma_world_blocks_origin(list, offset, k - 1);
        let prev = world_blocks_upto(list, offset, k - 1);
        let cur = world_blocks_upto(list, offset, k);
        assert forall|j: int| 0 <= j < cur.len() implies exists|m: int|
            0 <= m < k && (#[trigger] cur[j]).0 == list[m].0.spec_add(offset) by {
            if j < prev.len() {
                assert(cur[j] == prev[j]);
                let m = choose|m: int| 0 <= m < k - 1 && (#[trigger] prev[j]).0 == list[m].0.spec_add(offset);
            } else {
                assert(cur[j].0 == list[k - 1].0.spec_add(offset));
            }
        }
    }
}

/// With distinct cell positions that the offset moves without overflow, the world blocks
/// are at distinct positions.
proof fn lemma_world_blocks_distinct(list: Seq<(IVec3, Voxel)>, offset: IVec3, k: int)
    requires
        0 <= k <= list.len(),
        forall|a: int, b: int|
            0 <= a < list.len() && 0 <= b < list.len() && a != b ==> (#[trigger] list[a]).0 != (
            #[trigger] list[b]).0,
        forall|a: int| 0 <= a < list.len() ==> (#[trigger] list[a]).0.add_fits(offset),
    ensures
        forall|a: int, b: int|
            0 <= a < world_blocks_upto(list, offset, k).len() && 0 <= b < world_blocks_upto(
                list,
                offset,
                k,
            ).len() && a != b ==> (#[trigger] world_blocks_upto(list, offset, k)[a]).0 != (
            #[trigger] world_blocks_upto(list, offset, k)[b]).0,
    decreases k,
{
    if k > 0 {
        lemma_world_blocks_distinct(list, offset, k - 1);
        lemma_world_blocks_origin(list, offset, k - 1);
        let prev = world_blocks_upto(list, offset, k - 1);
        let cur = world_blocks_upto(list, offset, k);
        assert forall|a: int, b: int|
            0 <= a < cur.len() && 0 <= b < cur.len() && a != b implies (#[trigger] cur[a]).0 != (
            #[trigger] cur[b]).0 by {
            if a < prev.len() && b < prev.len() {
                assert(cur[a] == prev[a] && cur[b] == prev[b]);
            } else {
                let (o, l) = if a < prev.len() { (a, b) } else { (b, a) };
                assert(cur[o] == prev[o]);
                let m = choose|m: int| 0 <= m < k - 1 && (#[trigger] prev[o]).0 == list[m].0.spec_add(offset);
                assert(cur[l].0 == list[k - 1].0.spec_add(offset));
                assert(list[m].0 != list[k - 1].0);
                assert(list[m].0.add_fits(offset) && list[k - 1].0.add_fits(offset));
            }
        }
    }
}

/// The blocks of one chunk column are some of the blocks, at their positions, all in the
/// column.
proof fn lemma_blocks_in_chunk_origin(blocks: Seq<(IVec3, u16)>, key: (i32, i32), n: int)
    requires
        0 <= n <= blocks.len(),
    ensures
        forall|j: int|
            0 <= j < blocks_in_chunk(blocks, key, n).len() ==> chunk_key(
                (#[trigger] blocks_in_chunk(blocks, key, n)[j]).0,
            ) == key && exists|m: int| 0 <= m < n && blocks_in_chunk(blocks, key, n)[j] == blocks[m],
    decreases n,
{
    if n > 0 {
        lemma_blocks_in_chunk_origin(blocks, key, n - 1);
        let prev = blocks_in_chunk(blocks, key, n - 1);
        let cur = blocks_in_chunk(blocks, key, n);
        assert forall|j: int| 0 <= j < cur.len() implies chunk_key((#[trigger] cur[j]).0) == key
            && exists|m: int| 0 <= m < n && cur[j] == blocks[m] by {
            if j < prev.len() {
                assert(cur[j] == prev[j]);
                let m = choose|m: int| 0 <= m < n - 1 && prev[j] == blocks[m];
            } else {
                assert(cur[j] == blocks[n - 1]);
            }
        }
    }
}

/// The blocks of one chunk column keep their positions distinct.
proof fn lemma_blocks_in_chunk_distinct(blocks: Seq<(IVec3, u16)>, key: (i32, i32), n: int)
    requires
        0 <= n <= blocks.len(),
        forall|a: int, b: int|
            0 <= a < blocks.len() && 0 <= b < blocks.len() && a != b ==> (#[trigger] blocks[a]).0
                != (#[trigger] blocks[b]).0,
    ensures
        forall|a: int, b: int|
            0 <= a < blocks_in_chunk(blocks, key, n).len() && 0 <= b < blocks_in_chunk(
                blocks,
                key,
                n,
            ).len() && a != b ==> (#[trigger] blocks_in_chunk(blocks, key, n)[a]).0 != (
            #[trigger] blocks_in_chunk(blocks, key, n)[b]).0,
    decreases n,
{
    if n > 0 {
        lemma_blocks_in_chunk_distinct(blocks, key, n - 1);
        lemma_blocks_in_chunk_origin(blocks, key, n - 1);
        let prev = blocks_in_chunk(blocks, key, n - 1);
        let cur = blocks_in_chunk(blocks, key, n);
        assert forall|a: int, b: int|
            0 <= a < cur.len() && 0 <= b < cur.len() && a != b implies (#[trigger] cur[a]).0 != (
            #[trigger] cur[b]).0 by {
            if a < prev.len() && b < prev.len() {
                assert(cur[a] == prev[a] && cur[b] == prev[b]);
            } else {
                let (o, l) = if a < prev.len() { (a, b) } else { (b, a) };
                assert(cur[o] == prev[o]);
                assert(chunk_key(prev[o].0) == key);
                let m = choose|m: int| 0 <= m < n - 1 && prev[o] == blocks[m];
                assert(cur[l] == blocks[n - 1]);
            }
        }
    }
}

/// Every chunk column that region export writes holds distinct blocks of that column at
/// heights the world holds, so each block can be placed in and read back from its section.
pub proof fn lemma_export_column_ok(grid: VoxelGrid, offset: IVec3, key: (i32, i32))
    requires
        grid.wf(),
        grid.chunks.len() > 0 ==> grid_min(grid).add_fits(offset) && grid_max(grid).add_fits(
            offset,
        ),
    ensures
        column_blocks_ok(
            blocks_in_chunk(
                world_blocks(grid, offset),
                key,
                world_blocks(grid, offset).len() as int,
            ),
        ),
{
    let list = grid.occupied_list();
    let blocks = world_blocks(grid, offset);
    let n = blocks.len() as int;
    let col = blocks_in_chunk(blocks, key, n);
    grid.lemma_occupied_list_exact();
    crate::voxel::lemma_min_on_axis(list, 0);
    crate::voxel::lemma_min_on_axis(list, 1);
    crate::voxel::lemma_min_on_axis(list, 2);
    crate::voxel::lemma_max_on_axis(list, 0);
    crate::voxel::lemma_max_on_axis(list, 1);
    crate::voxel::lemma_max_on_axis(list, 2);
    assert forall|k: int| 0 <= k < list.len() implies (#[trigger] list[k]).0.add_fits(offset) by {
        assert(min_le(list, k));
    }
    lemma_world_blocks(list, offset, list.len() as int);
    lemma_world_blocks_distinct(list, offset, list.len() as int);
    lemma_blocks_in_chunk(blocks, key, n);
    lemma_blocks_in_chunk_origin(blocks, key, n);
    lemma_blocks_in_chunk_distinct(blocks, key, n);
    assert forall|i: int| 0 <= i < col.len() implies height_ok(#[trigger] col[i]) by {}
    assert forall|i: int, j: int|
        0 <= i < col.len() && 0 <= j < col.len() implies chunk_key((#[trigger] col[i]).0)
        == chunk_key((#[trigger] col[j]).0) by {}
}

/// Where a block of a chunk column lies in the column: height first, then `z`, then `x`.
pub open spec fn column_index(p: IVec3) -> int {
    (p.y + 64) * 256 + (p.z as int % 16) * 16 + p.x as int % 16
}

/// A chunk column holds at most 16 x 16 x 384 distinct blocks at world heights.
proof fn lemma_column_count(col: Seq<(IVec3, u16)>)
    requires
        column_blocks_ok(col),
    ensures
        col.len() <= 98304,
{
    let idx = col.map_values(|b: (IVec3, u16)| column_index(b.0));
    assert forall|i: int| 0 <= i < idx.len() implies 0 <= #[trigger] idx[i] < 98304 by {
        assert(height_ok(col[i]));
        let p = col[i].0;
        assert(0 <= p.x as int % 16 < 16 && 0 <= p.z as int % 16 < 16);
    }
    assert(idx.no_duplicates()) by {
        assert forall|a: int, b: int| 0 <= a < idx.len() && 0 <= b < idx.len() && a != b implies idx[a]
            != idx[b] by {
            let pa = col[a].0;
            let pb = col[b].0;
            assert(pa != pb);
            assert(chunk_key(pa) == chunk_key(pb));
            assert(height_ok(col[a]) && height_ok(col[b]));
            if idx[a] == idx[b] {
                let (ax, az, bx, bz) = (pa.x as int, pa.z as int, pb.x as int, pb.z as int);
                assert(ax == 16 * (ax / 16) + ax % 16 && 0 <= ax % 16 < 16) by (nonlinear_arith);
                assert(bx == 16 * (bx / 16) + bx % 16 && 0 <= bx % 16 < 16) by (nonlinear_arith);
                assert(az == 16 * (az / 16) + az % 16 && 0 <= az % 16 < 16) by (nonlinear_arith);
                assert(bz == 16 * (bz / 16) + bz % 16 && 0 <= bz % 16 < 16) by (nonlinear_arith);
                let (u1, v1, w1) = (pa.y + 64, az % 16, ax % 16);
                let (u2, v2, w2) = (pb.y + 64, bz % 16, bx % 16);
                assert(u1 == u2 && v1 == v2 && w1 == w2) by (nonlinear_arith)
                    requires
                        u1 * 256 + v1 * 16 + w1 == u2 * 256 + v2 * 16 + w2,
                        0 <= v1 < 16,
                        0 <= w1 < 16,
                        0 <= v2 < 16,
                        0 <= w2 < 16,
                ;
                assert(pa == pb);
            }
        }
    }
    crate::geom::lemma_distinct_in_range(idx, 98304);
}

} // verus!
