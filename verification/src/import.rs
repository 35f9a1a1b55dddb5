//! Byte layouts of model files: binary STL, and texel lookup in decoded textures.
//!
//! Coordinates in an STL file are little-endian `f32` values; they are handed out here as
//! their raw 32-bit patterns, which the caller reinterprets as floats.
use vstd::prelude::*;
use vstd::string::*;

verus! {

/// The model formats that can be loaded.
#[derive(Clone, Copy, Debug, PartialEq, Eq, Structural)]
pub enum ModelFormat {
    /// Wavefront OBJ (`.obj`).
    Obj,
    /// glTF, binary or text (`.glb`, `.gltf`).
    Gltf,
    /// Binary STL (`.stl`).
    Stl,
}

/// An ASCII letter in lower case; other bytes unchanged.
pub open spec fn ascii_lower(b: u8) -> u8 {
    if 65 <= b <= 90 {
        (b + 32) as u8
    } else {
        b
    }
}

/// The bytes with ASCII letters in lower case.
pub open spec fn lowered(s: Seq<u8>) -> Seq<u8> {
    s.map_values(|b: u8| ascii_lower(b))
}

/// Whether `s`, with ASCII letters in lower case, is `word`.
fn equals_ignoring_case(s: &[u8], word: &[u8]) -> (r: bool)
    ensures
        r == (lowered(s@) == word@),
{
    if s.len() != word.len() {
        assert(lowered(s@).len() != word@.len());
        return false;
    }
    let mut i: usize = 0;
    while i < s.len()
        invariant
            s.len() == word.len(),
            i <= s.len(),
            forall|k: int| 0 <= k < i ==> ascii_lower(#[trigger] s@[k]) == word@[k],
        decreases s.len() - i,
    {
        let b = s[i];
        let lower = if 65 <= b && b <= 90 { b + 32 } else { b };
        if lower != word[i] {
            assert(lowered(s@)[i as int] != word@[i as int]);
            return false;
        }
        i = i + 1;
    }
    assert(lowered(s@) =~= word@);
    true
}

/// The format a file extension names, letters compared without regard to case: `obj`,
/// `glb` or `gltf`, `stl`; any other extension names none.
pub fn model_format(ext: &str) -> (r: Option<ModelFormat>)
    ensures
        r == (if lowered(ext.spec_bytes()) == seq![111u8, 98u8, 106u8] {
            Some(ModelFormat::Obj)
        } else if lowered(ext.spec_bytes()) == seq![103u8, 108u8, 98u8] || lowered(
            ext.spec_bytes(),
        ) == seq![103u8, 108u8, 116u8, 102u8] {
            Some(ModelFormat::Gltf)
        } else if lowered(ext.spec_bytes()) == seq![115u8, 116u8, 108u8] {
            Some(ModelFormat::Stl)
        } else {
            None
        }),
{
    let bytes = ext.as_bytes();
    let obj: [u8; 3] = [111, 98, 106];
    let glb: [u8; 3] = [103, 108, 98];
    let gltf: [u8; 4] = [103, 108, 116, 102];
    let stl: [u8; 3] = [115, 116, 108];
    assert(obj@ =~= seq![111u8, 98u8, 106u8]);
    assert(glb@ =~= seq![103u8, 108u8, 98u8]);
    assert(gltf@ =~= seq![103u8, 108u8, 116u8, 102u8]);
    assert(stl@ =~= seq![115u8, 116u8, 108u8]);
    if equals_ignoring_case(bytes, obj.as_slice()) {
        Some(ModelFormat::Obj)
    } else if equals_ignoring_case(bytes, glb.as_slice()) || equals_ignoring_case(
        bytes,
        gltf.as_slice(),
    ) {
        Some(ModelFormat::Gltf)
    } else if equals_ignoring_case(bytes, stl.as_slice()) {
        Some(ModelFormat::Stl)
    } else {
        None
    }
}

/// Size of the STL header: 80 bytes of free text, then the triangle count.
pub const STL_HEADER_LEN: usize = 84;

/// Size of one STL triangle record: a normal, three vertices and a 2-byte attribute.
pub const STL_RECORD_LEN: u64 = 50;

/// Why an STL file was refused.
#[derive(Clone, Copy, Debug, PartialEq, Eq, Structural)]
pub enum StlError {
    /// Shorter than the 84-byte header.
    TooSmall,
    /// Shorter than the triangle count promises: taken to be ASCII STL, which is not read.
    Ascii,
}

/// The triangles of a binary STL file, three vertices each, as raw `f32` bit patterns.
#[derive(Clone, Debug)]
pub struct StlMesh {
    /// Vertex positions, three per triangle, in file order.
    pub vertices: Vec<[u32; 3]>,
    /// The facet normal of each vertex's triangle.
    pub normals: Vec<[u32; 3]>,
    /// `0, 1, 2, ...`: each vertex used once.
    pub indices: Vec<u32>,
}

/// The little-endian 32-bit value stored at `off`.
pub open spec fn le_u32_at(s: Seq<u8>, off: int) -> int {
    s[off] as int + 256 * (s[off + 1] as int) + 65536 * (s[off + 2] as int) + 16777216 * (
    s[off + 3] as int)
}

/// The three little-endian 32-bit values stored from `off` on.
pub open spec fn le_triple_at(s: Seq<u8>, off: int) -> [u32; 3] {
    [le_u32_at(s, off) as u32, le_u32_at(s, off + 4) as u32, le_u32_at(s, off + 8) as u32]
}

/// The triangle count that the header of `s` declares.
pub open spec fn stl_count(s: Seq<u8>) -> int {
    le_u32_at(s, 80)
}

/// Where triangle `t` of an STL file begins.
pub open spec fn stl_record(t: int) -> int {
    84 + 50 * t
}

fn read_u32_le(data: &[u8], off: usize) -> (r: u32)
    requires
        off + 4 <= data.len(),
    ensures
        r as int == le_u32_at(data@, off as int),
{
    let b0 = data[off] as u32;
    let b1 = data[off + 1] as u32;
    let b2 = data[off + 2] as u32;
    let b3 = data[off + 3] as u32;
    b0 + 256 * b1 + 65536 * b2 + 16777216 * b3
}

fn read_triple(data: &[u8], off: usize) -> (r: [u32; 3])
    requires
        off + 12 <= data.len(),
    ensures
        r == le_triple_at(data@, off as int),
{
    let x = read_u32_le(data, off);
    let y = read_u32_le(data, off + 4);
    let z = read_u32_le(data, off + 8);
    [x, y, z]
}

/// Reads a binary STL file: an 80-byte header, a little-endian triangle count `n`, then `n`
/// records of 50 bytes (normal, three vertices, attribute). A file shorter than 84 bytes is
/// refused as too small, one shorter than `84 + 50 n` as ASCII; bytes past the last record
/// are ignored.
pub fn parse_stl(data: &[u8]) -> (r: Result<StlMesh, StlError>)
    ensures
        data.len() < 84 <==> r == Err::<StlMesh, StlError>(StlError::TooSmall),
        data.len() >= 84 && data.len() < stl_record(stl_count(data@)) <==> r == Err::<
            StlMesh,
            StlError,
        >(StlError::Ascii),
        r matches Ok(m) ==> {
            let n = stl_count(data@);
            &&& m.vertices.len() == 3 * n
            &&& m.normals.len() == 3 * n
            &&& m.indices.len() == 3 * n
            &&& forall|t: int, j: int|
                0 <= t < n && 0 <= j < 3 ==> #[trigger] m.vertices@[3 * t + j] == le_triple_at(
                    data@,
                    stl_record(t) + 12 + 12 * j,
                )
            &&& forall|t: int, j: int|
                0 <= t < n && 0 <= j < 3 ==> #[trigger] m.normals@[3 * t + j] == le_triple_at(
                    data@,
                    stl_record(t),
                )
            &&& forall|k: int| 0 <= k < 3 * n ==> #[trigger] m.indices@[k] == k as u32
        },
{
    if data.len() < STL_HEADER_LEN {
        return Err(StlError::TooSmall);
    }
    let count = read_u32_le(data, 80);
    let expected: u64 = 84 + count as u64 * STL_RECORD_LEN;
    if (data.len() as u64) < expected {
        return Err(StlError::Ascii);
    }
    let n = count as usize;
    let mut vertices: Vec<[u32; 3]> = Vec::new();
    let mut normals: Vec<[u32; 3]> = Vec::new();
    let mut indices: Vec<u32> = Vec::new();
    let mut t: usize = 0;
    while t < n
        invariant
            n == stl_count(data@),
            stl_record(n as int) <= data.len(),
            t <= n,
            vertices.len() == 3 * t,
            normals.len() == 3 * t,
            indices.len() == 3 * t,
            forall|u: int, j: int|
                0 <= u < t && 0 <= j < 3 ==> #[trigger] vertices@[3 * u + j] == le_triple_at(
                    data@,
                    stl_record(u) + 12 + 12 * j,
                ),
            forall|u: int, j: int|
                0 <= u < t && 0 <= j < 3 ==> #[trigger] normals@[3 * u + j] == le_triple_at(
                    data@,
                    stl_record(u),
                ),
            forall|k: int| 0 <= k < 3 * t ==> #[trigger] indices@[k] == k as u32,
        decreases n - t,
    {
        let base = 84 + t * 50;
        let normal = read_triple(data, base);
        let mut j: usize = 0;
        while j < 3
            invariant
                n == stl_count(data@),
                stl_record(n as int) <= data.len(),
                t < n,
                base == stl_record(t as int),
                normal == le_triple_at(data@, stl_record(t as int)),
                j <= 3,
                vertices.len() == 3 * t + j,
                normals.len() == 3 * t + j,
                indices.len() == 3 * t + j,
                forall|u: int, i: int|
                    0 <= u < t && 0 <= i < 3 ==> #[trigger] vertices@[3 * u + i] == le_triple_at(
                        data@,
                        stl_record(u) + 12 + 12 * i,
                    ),
                forall|u: int, i: int|
                    0 <= u < t && 0 <= i < 3 ==> #[trigger] normals@[3 * u + i] == le_triple_at(
                        data@,
                        stl_record(u),
                    ),
                forall|i: int|
                    0 <= i < j ==> #[trigger] vertices@[3 * t + i] == le_triple_at(
                        data@,
                        stl_record(t as int) + 12 + 12 * i,
                    ),
                forall|i: int| 0 <= i < j ==> #[trigger] normals@[3 * t + i] == normal,
                forall|k: int| 0 <= k < 3 * t + j ==> #[trigger] indices@[k] == k as u32,
            decreases 3 - j,
        {
            let vbase = base + 12 + j * 12;
            indices.push(vertices.len() as u32);
            vertices.push(read_triple(data, vbase));
            normals.push(normal);
            j = j + 1;
        }
        t = t + 1;
    }
    Ok(StlMesh { vertices, normals, indices })
}

// ---------------------------------------------------------------------------
// Textures
// ---------------------------------------------------------------------------

/// How the pixels of a decoded image are laid out.
#[derive(Clone, Copy, Debug, PartialEq, Eq, Structural)]
pub enum PixelLayout {
    /// Three bytes per pixel: red, green, blue.
    Rgb8,
    /// Four bytes per pixel: red, green, blue, alpha.
    Rgba8,
    /// Any other layout; such images are not used as textures.
    Other,
}

/// The RGBA8 pixels of an image: RGB pixels get an opaque alpha, RGBA pixels are kept, and
/// any other layout gives no texture.
pub fn rgba_pixels(layout: PixelLayout, pixels: &[u8]) -> (r: Option<Vec<u8>>)
    requires
        layout == PixelLayout::Rgb8 ==> pixels.len() % 3 == 0,
        layout == PixelLayout::Rgb8 ==> pixels.len() / 3 * 4 <= usize::MAX,
    ensures
        layout == PixelLayout::Other <==> r is None,
        layout == PixelLayout::Rgba8 ==> (r matches Some(v) && v@ == pixels@),
        layout == PixelLayout::Rgb8 ==> (r matches Some(v) && v@.len() == pixels.len() / 3 * 4
            && forall|i: int, c: int|
            0 <= i < pixels.len() / 3 && 0 <= c < 4 ==> #[trigger] v@[4 * i + c] == if c < 3 {
                pixels@[3 * i + c]
            } else {
                255u8
            }),
{
    match layout {
        PixelLayout::Rgb8 => {
            let n = pixels.len() / 3;
            let mut out: Vec<u8> = Vec::new();
            let mut i: usize = 0;
            while i < n
                invariant
                    n == pixels.len() / 3,
                    pixels.len() % 3 == 0,
                    i <= n,
                    out@.len() == 4 * i,
                    forall|k: int, c: int|
                        0 <= k < i && 0 <= c < 4 ==> #[trigger] out@[4 * k + c] == if c < 3 {
                            pixels@[3 * k + c]
                        } else {
                            255u8
                        },
                decreases n - i,
            {
                out.push(pixels[3 * i]);
                out.push(pixels[3 * i + 1]);
                out.push(pixels[3 * i + 2]);
                out.push(255);
                proof {
                    assert forall|k: int, c: int|
                        0 <= k < i + 1 && 0 <= c < 4 implies #[trigger] out@[4 * k + c] == if c
                        < 3 {
                        pixels@[3 * k + c]
                    } else {
                        255u8
                    } by {
                        if k == i {
                            assert(4 * k + c == 4 * i + c);
                        }
                    }
                }
                i = i + 1;
            }
            Some(out)
        },
        PixelLayout::Rgba8 => {
            let mut out: Vec<u8> = Vec::new();
            let mut i: usize = 0;
            while i < pixels.len()
                invariant
                    i <= pixels.len(),
                    out@ == pixels@.take(i as int),
                decreases pixels.len() - i,
            {
                out.push(pixels[i]);
                i = i + 1;
                assert(out@ =~= pixels@.take(i as int));
            }
            assert(pixels@.take(pixels.len() as int) =~= pixels@);
            Some(out)
        },
        PixelLayout::Other => None,
    }
}

/// A decoded texture: `width * height` RGBA8 pixels, row by row.
#[derive(Clone, Debug)]
pub struct TextureData {
    pub width: u32,
    pub height: u32,
    pub pixels: Vec<u8>,
}

/// The colour used where a texel lies past the end of the pixel data.
pub open spec fn missing_texel() -> [u8; 4] {
    [204u8, 204u8, 204u8, 255u8]
}

impl TextureData {
    /// Byte offset of texel `(x, y)` in the pixel data.
    pub open spec fn texel_offset(&self, x: int, y: int) -> int {
        (y * self.width + x) * 4
    }

    /// The RGBA value of texel `(x, y)`, or light grey when the pixel data is too short
    /// to hold it.
    pub fn texel(&self, x: u32, y: u32) -> (r: [u8; 4])
        requires
            x < self.width,
            y < self.height,
            self.texel_offset(x as int, y as int) <= u32::MAX,
        ensures
            ({
                let i = self.texel_offset(x as int, y as int);
                if i + 3 < self.pixels.len() {
                    r == [self.pixels@[i], self.pixels@[i + 1], self.pixels@[i + 2], self.pixels@[i
                        + 3]]
                } else {
                    r == missing_texel()
                }
            }),
    {
        proof {
            assert(y * self.width + x <= self.texel_offset(x as int, y as int)) by (nonlinear_arith)
                requires
                    self.texel_offset(x as int, y as int) == (y * self.width + x) * 4,
                    y * self.width + x >= 0,
            ;
            assert(0 <= y * self.width) by (nonlinear_arith);
        }
        let row: u32 = y * self.width;
        let idx = ((row + x) * 4) as usize;
        if idx < self.pixels.len() && 3 < self.pixels.len() - idx {
            [self.pixels[idx], self.pixels[idx + 1], self.pixels[idx + 2], self.pixels[idx + 3]]
        } else {
            [204u8, 204u8, 204u8, 255u8]
        }
    }
}

} // verus!
