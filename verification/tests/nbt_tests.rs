use chunky::nbt::{push_varint, CompoundListWriter, CompoundWriter, NbtWriter};

#[test]
fn root_compound_wraps_body() {
    let mut out = Vec::new();
    {
        let mut w = NbtWriter::new(&mut out);
        w.compound("", &[1, 2, 3]);
    }
    assert_eq!(out, vec![10, 0, 0, 1, 2, 3, 0]);
}

#[test]
fn tag_header_is_type_then_name() {
    let mut out = Vec::new();
    {
        let mut w = NbtWriter::new(&mut out);
        w.write_tag_header(8, "ab");
    }
    assert_eq!(out, vec![8, 0, 2, b'a', b'b']);
}

#[test]
fn root_int_tag() {
    let mut out = Vec::new();
    {
        let mut w = NbtWriter::new(&mut out);
        w.int_tag("x", -2);
    }
    assert_eq!(out, vec![3, 0, 1, b'x', 0xff, 0xff, 0xff, 0xfe]);
}

#[test]
fn compound_children_are_big_endian() {
    let mut out = Vec::new();
    {
        let mut c = CompoundWriter::new(&mut out);
        c.int_tag("a", 0x01020304);
        c.long("b", -1);
        c.byte("c", -3);
        c.string("d", "hi");
    }
    let mut want = vec![3, 0, 1, b'a', 1, 2, 3, 4];
    want.extend_from_slice(&[4, 0, 1, b'b', 0xff, 0xff, 0xff, 0xff, 0xff, 0xff, 0xff, 0xff]);
    want.extend_from_slice(&[1, 0, 1, b'c', 0xfd]);
    want.extend_from_slice(&[8, 0, 1, b'd', 0, 2, b'h', b'i']);
    assert_eq!(out, want);
}

#[test]
fn arrays_carry_their_length() {
    let mut out = Vec::new();
    {
        let mut c = CompoundWriter::new(&mut out);
        c.byte_array("B", &[7, 8]);
        c.int_array("I", &[1, -1]);
        c.long_array("L", &[2]);
    }
    let mut want = vec![7, 0, 1, b'B', 0, 0, 0, 2, 7, 8];
    want.extend_from_slice(&[11, 0, 1, b'I', 0, 0, 0, 2, 0, 0, 0, 1, 0xff, 0xff, 0xff, 0xff]);
    want.extend_from_slice(&[12, 0, 1, b'L', 0, 0, 0, 1, 0, 0, 0, 0, 0, 0, 0, 2]);
    assert_eq!(out, want);
}

#[test]
fn nested_compound_and_lists() {
    let mut out = Vec::new();
    {
        let mut c = CompoundWriter::new(&mut out);
        c.compound("n", &[9]);
        let items: Vec<Vec<u8>> = vec![vec![0], vec![1, 0]];
        c.list_compounds("l", &items);
        c.list_strings("s", &["a", "bc"]);
    }
    let mut want = vec![10, 0, 1, b'n', 9, 0];
    want.extend_from_slice(&[9, 0, 1, b'l', 10, 0, 0, 0, 2, 0, 1, 0]);
    want.extend_from_slice(&[9, 0, 1, b's', 8, 0, 0, 0, 2, 0, 1, b'a', 0, 2, b'b', b'c']);
    assert_eq!(out, want);
}

#[test]
fn list_item_is_closed_compound() {
    let mut items: Vec<Vec<u8>> = Vec::new();
    items.push_compound(&[3, 0, 1, b'x', 0, 0, 0, 5]);
    assert_eq!(items, vec![vec![3, 0, 1, b'x', 0, 0, 0, 5, 0]]);
}

#[test]
fn varints_take_seven_digits_per_byte() {
    let mut out = Vec::new();
    push_varint(&mut out, 0);
    push_varint(&mut out, 127);
    push_varint(&mut out, 128);
    push_varint(&mut out, 300);
    push_varint(&mut out, u32::MAX);
    assert_eq!(out, vec![0, 127, 0x80, 1, 0xac, 2, 0xff, 0xff, 0xff, 0xff, 0x0f]);
}
