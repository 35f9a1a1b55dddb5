use chunky::import::{model_format, parse_stl, rgba_pixels, ModelFormat, PixelLayout, StlError, TextureData};

fn stl_with(count: u32, records: &[[f32; 12]]) -> Vec<u8> {
    let mut data = vec![0u8; 80];
    data.extend_from_slice(&count.to_le_bytes());
    for r in records {
        for v in r {
            data.extend_from_slice(&v.to_le_bytes());
        }
        data.extend_from_slice(&[0, 0]);
    }
    data
}

#[test]
fn stl_shorter_than_header_is_too_small() {
    assert_eq!(parse_stl(&[0u8; 83]).err(), Some(StlError::TooSmall));
    assert_eq!(parse_stl(&[]).err(), Some(StlError::TooSmall));
}

#[test]
fn stl_shorter_than_its_count_is_ascii() {
    let data = stl_with(1, &[]);
    assert_eq!(data.len(), 84);
    assert_eq!(parse_stl(&data).err(), Some(StlError::Ascii));
    let mut text = b"solid cube\n".to_vec();
    text.resize(100, b' ');
    assert_eq!(parse_stl(&text).err(), Some(StlError::Ascii));
}

#[test]
fn stl_without_triangles_is_empty() {
    let m = parse_stl(&stl_with(0, &[])).unwrap();
    assert!(m.vertices.is_empty() && m.normals.is_empty() && m.indices.is_empty());
}

#[test]
fn stl_triangles_are_read_in_order() {
    let t0 = [0.0, 0.0, 1.0, 1.0, 2.0, 3.0, -4.5, 5.0, 6.0, 7.0, 8.0, 9.25];
    let t1 = [1.0, 0.0, 0.0, 10.0, 11.0, 12.0, 13.0, 14.0, 15.0, 16.0, 17.0, 18.0];
    let mut data = stl_with(2, &[t0, t1]);
    data.extend_from_slice(&[1, 2, 3]);
    let m = parse_stl(&data).unwrap();
    assert_eq!(m.vertices.len(), 6);
    assert_eq!(m.indices, vec![0, 1, 2, 3, 4, 5]);
    let f = |v: [u32; 3]| [f32::from_bits(v[0]), f32::from_bits(v[1]), f32::from_bits(v[2])];
    assert_eq!(f(m.vertices[0]), [1.0, 2.0, 3.0]);
    assert_eq!(f(m.vertices[1]), [-4.5, 5.0, 6.0]);
    assert_eq!(f(m.vertices[2]), [7.0, 8.0, 9.25]);
    assert_eq!(f(m.vertices[5]), [16.0, 17.0, 18.0]);
    assert_eq!(f(m.normals[0]), [0.0, 0.0, 1.0]);
    assert_eq!(f(m.normals[2]), [0.0, 0.0, 1.0]);
    assert_eq!(f(m.normals[3]), [1.0, 0.0, 0.0]);
}

#[test]
fn texels_are_read_row_by_row() {
    let t = TextureData {
        width: 2,
        height: 2,
        pixels: vec![1, 2, 3, 4, 5, 6, 7, 8, 9, 10, 11, 12, 13, 14, 15, 16],
    };
    assert_eq!(t.texel(0, 0), [1, 2, 3, 4]);
    assert_eq!(t.texel(1, 0), [5, 6, 7, 8]);
    assert_eq!(t.texel(0, 1), [9, 10, 11, 12]);
    assert_eq!(t.texel(1, 1), [13, 14, 15, 16]);
}

#[test]
fn texels_past_the_data_are_light_grey() {
    let t = TextureData { width: 2, height: 2, pixels: vec![1, 2, 3, 4, 5, 6, 7] };
    assert_eq!(t.texel(0, 0), [1, 2, 3, 4]);
    assert_eq!(t.texel(1, 0), [204, 204, 204, 255]);
    assert_eq!(t.texel(1, 1), [204, 204, 204, 255]);
}

#[test]
fn rgb_pixels_gain_an_opaque_alpha() {
    assert_eq!(
        rgba_pixels(PixelLayout::Rgb8, &[1, 2, 3, 4, 5, 6]),
        Some(vec![1, 2, 3, 255, 4, 5, 6, 255])
    );
    assert_eq!(rgba_pixels(PixelLayout::Rgba8, &[1, 2, 3, 4]), Some(vec![1, 2, 3, 4]));
    assert_eq!(rgba_pixels(PixelLayout::Other, &[1, 2]), None);
    assert_eq!(rgba_pixels(PixelLayout::Rgb8, &[]), Some(vec![]));
}

#[test]
fn formats_by_extension() {
    assert_eq!(model_format("obj"), Some(ModelFormat::Obj));
    assert_eq!(model_format("OBJ"), Some(ModelFormat::Obj));
    assert_eq!(model_format("glb"), Some(ModelFormat::Gltf));
    assert_eq!(model_format("GlTf"), Some(ModelFormat::Gltf));
    assert_eq!(model_format("stl"), Some(ModelFormat::Stl));
    assert_eq!(model_format("fbx"), None);
    assert_eq!(model_format(""), None);
    assert_eq!(model_format("objx"), None);
}
