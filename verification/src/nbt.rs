//! A writer for Minecraft's Named Binary Tag (NBT) format, big-endian.
use vstd::prelude::*;
use vstd::string::*;

verus! {

// ---------------------------------------------------------------------------
// Byte-level encodings
// ---------------------------------------------------------------------------

pub open spec fn be_u16(v: u16) -> Seq<u8> {
    seq![(v / 0x100) as u8, (v % 0x100) as u8]
}

pub open spec fn be_u32(v: u32) -> Seq<u8> {
    seq![
        (v / 0x1000000) as u8,
        ((v / 0x10000) % 0x100) as u8,
        ((v / 0x100) % 0x100) as u8,
        (v % 0x100) as u8,
    ]
}

pub open spec fn be_u64(v: u64) -> Seq<u8> {
    be_u32((v / 0x100000000) as u32) + be_u32((v % 0x100000000) as u32)
}

/// Two's complement, big-endian.
pub open spec fn be_i32(v: i32) -> Seq<u8> {
    be_u32(v as u32)
}

/// Two's complement, big-endian.
pub open spec fn be_i64(v: i64) -> Seq<u8> {
    be_u64(v as u64)
}

/// A length written as a 32-bit signed count: the length modulo 2^32.
pub open spec fn be_len32(n: nat) -> Seq<u8> {
    be_u32((n % 0x100000000) as u32)
}

/// An NBT string payload: 16-bit length (the byte length modulo 2^16), then the bytes.
pub open spec fn nbt_str(s: Seq<u8>) -> Seq<u8> {
    be_u16((s.len() % 0x10000) as u16) + s
}

/// Tag type byte, then the tag's name.
pub open spec fn tag_header(tag: u8, name: Seq<u8>) -> Seq<u8> {
    seq![tag] + nbt_str(name)
}

/// The byte sequences of `s`, one after the other.
pub open spec fn concat(s: Seq<Seq<u8>>) -> Seq<u8>
    decreases s.len(),
{
    if s.len() == 0 {
        Seq::empty()
    } else {
        concat(s.drop_last()) + s.last()
    }
}

pub const TAG_END: u8 = 0;

pub const TAG_BYTE: u8 = 1;

pub const TAG_INT: u8 = 3;

pub const TAG_LONG: u8 = 4;

pub const TAG_BYTE_ARRAY: u8 = 7;

pub const TAG_STRING: u8 = 8;

pub const TAG_LIST: u8 = 9;

pub const TAG_COMPOUND: u8 = 10;

pub const TAG_INT_ARRAY: u8 = 11;

pub const TAG_LONG_ARRAY: u8 = 12;

// Complete named tags, as they appear inside a compound.
pub open spec fn named_byte(name: Seq<u8>, v: i8) -> Seq<u8> {
    tag_header(TAG_BYTE, name) + seq![v as u8]
}

pub open spec fn named_int(name: Seq<u8>, v: i32) -> Seq<u8> {
    tag_header(TAG_INT, name) + be_i32(v)
}

pub open spec fn named_long(name: Seq<u8>, v: i64) -> Seq<u8> {
    tag_header(TAG_LONG, name) + be_i64(v)
}

pub open spec fn named_string(name: Seq<u8>, v: Seq<u8>) -> Seq<u8> {
    tag_header(TAG_STRING, name) + nbt_str(v)
}

pub open spec fn named_byte_array(name: Seq<u8>, data: Seq<u8>) -> Seq<u8> {
    tag_header(TAG_BYTE_ARRAY, name) + be_len32(data.len()) + data
}

pub open spec fn named_long_array(name: Seq<u8>, data: Seq<i64>) -> Seq<u8> {
    tag_header(TAG_LONG_ARRAY, name) + be_len32(data.len()) + concat(data.map_values(|v: i64| be_i64(v)))
}

pub open spec fn named_int_array(name: Seq<u8>, data: Seq<i32>) -> Seq<u8> {
    tag_header(TAG_INT_ARRAY, name) + be_len32(data.len()) + concat(data.map_values(|v: i32| be_i32(v)))
}

/// A compound whose children are encoded in `body`; the compound ends with `TAG_END`.
pub open spec fn named_compound(name: Seq<u8>, body: Seq<u8>) -> Seq<u8> {
    tag_header(TAG_COMPOUND, name) + body + seq![TAG_END]
}

/// A list of compounds; each item is a compound payload that already ends with `TAG_END`.
pub open spec fn named_compound_list(name: Seq<u8>, items: Seq<Seq<u8>>) -> Seq<u8> {
    tag_header(TAG_LIST, name) + seq![TAG_COMPOUND] + be_len32(items.len()) + concat(items)
}

pub open spec fn named_string_list(name: Seq<u8>, vals: Seq<Seq<u8>>) -> Seq<u8> {
    tag_header(TAG_LIST, name) + seq![TAG_STRING] + be_len32(vals.len()) + concat(
        vals.map_values(|v: Seq<u8>| nbt_str(v)),
    )
}

pub proof fn lemma_concat_push(s: Seq<Seq<u8>>, x: Seq<u8>)
    ensures
        concat(s.push(x)) == concat(s) + x,
{
    assert(s.push(x).drop_last() == s);
}

/// The varint (LEB128) encoding of `v`: seven digits per byte, lowest first, the top bit
/// set on every byte but the last.
pub open spec fn varint(v: nat) -> Seq<u8>
    decreases v,
{
    if v < 128 {
        seq![v as u8]
    } else {
        seq![(v % 128 + 128) as u8] + varint(v / 128)
    }
}

/// The values one after the other, each as a varint.
pub open spec fn varints(data: Seq<u32>) -> Seq<u8> {
    concat(data.map_values(|v: u32| varint(v as nat)))
}

/// The number that the low seven digits of the bytes spell, first byte lowest.
pub open spec fn low7_value(s: Seq<u8>) -> nat
    decreases s.len(),
{
    if s.len() == 0 {
        0
    } else {
        (s[0] % 128) as nat + 128 * low7_value(s.drop_first())
    }
}

/// Reading a varint back: every byte but the last has its top bit set, the last does not,
/// so a reader finds where the varint ends; and the low seven digits spell `v`.
pub proof fn lemma_varint_read_back(v: nat)
    ensures
        varint(v).len() >= 1,
        forall|i: int| 0 <= i < varint(v).len() - 1 ==> #[trigger] varint(v)[i] >= 128,
        varint(v)[varint(v).len() - 1] < 128,
        low7_value(varint(v)) == v,
    decreases v,
{
    if v >= 128 {
        lemma_varint_read_back(v / 128);
        let s = varint(v);
        let t = varint(v / 128);
        assert(s.drop_first() =~= t);
        assert forall|i: int| 0 <= i < s.len() - 1 implies #[trigger] s[i] >= 128 by {
            if i > 0 {
                assert(s[i] == t[i - 1]);
            }
        }
        assert(s[s.len() - 1] == t[t.len() - 1]);
        assert((v % 128 + 128) % 128 == v % 128);
        assert(s[0] as nat % 128 == v % 128);
        assert(low7_value(s) == v % 128 + 128 * low7_value(t));
        assert(v == 128 * (v / 128) + v % 128);
    } else {
        assert(varint(v).drop_first() =~= Seq::<u8>::empty());
        assert(low7_value(varint(v).drop_first()) == 0);
        assert(varint(v)[0] as nat % 128 == v);
    }
}

// ---------------------------------------------------------------------------
// Appending encodings to a buffer
// ---------------------------------------------------------------------------

/// Appends the varint encoding of `v`.
pub fn push_varint(out: &mut Vec<u8>, v: u32)
    ensures
        final(out)@ == old(out)@ + varint(v as nat),
{
    let mut w = v;
    while w >= 128
        invariant
            out@ + varint(w as nat) == old(out)@ + varint(v as nat),
        decreases w,
    {
        let ghost before = out@;
        out.push((w % 128 + 128) as u8);
        proof {
            assert(varint(w as nat) == seq![(w % 128 + 128) as u8] + varint((w / 128) as nat));
            assert(out@ + varint((w / 128) as nat) =~= before + varint(w as nat));
        }
        w = w / 128;
    }
    out.push(w as u8);
    assert(out@ =~= old(out)@ + varint(v as nat));
}

pub fn push_u16_be(out: &mut Vec<u8>, v: u16)
    ensures
        final(out)@ == old(out)@ + be_u16(v),
{
    let hi = (v >> 8) as u8;
    let lo = (v & 0xff) as u8;
    assert(hi == (v / 0x100) as u8 && lo == (v % 0x100) as u8) by (bit_vector)
        requires
            hi == (v >> 8) as u8,
            lo == (v & 0xff) as u8,
    ;
    out.push(hi);
    out.push(lo);
    assert(final(out)@ =~= old(out)@ + be_u16(v));
}

pub fn push_u32_be(out: &mut Vec<u8>, v: u32)
    ensures
        final(out)@ == old(out)@ + be_u32(v),
{
    let b0 = (v >> 24) as u8;
    let b1 = ((v >> 16) & 0xff) as u8;
    let b2 = ((v >> 8) & 0xff) as u8;
    let b3 = (v & 0xff) as u8;
    assert(b0 == (v / 0x1000000) as u8 && b1 == ((v / 0x10000) % 0x100) as u8 && b2 == ((v
        / 0x100) % 0x100) as u8 && b3 == (v % 0x100) as u8) by (bit_vector)
        requires
            b0 == (v >> 24) as u8,
            b1 == ((v >> 16) & 0xff) as u8,
            b2 == ((v >> 8) & 0xff) as u8,
            b3 == (v & 0xff) as u8,
    ;
    out.push(b0);
    out.push(b1);
    out.push(b2);
    out.push(b3);
    assert(final(out)@ =~= old(out)@ + be_u32(v));
}

pub fn push_u64_be(out: &mut Vec<u8>, v: u64)
    ensures
        final(out)@ == old(out)@ + be_u64(v),
{
    let hi = (v >> 32) as u32;
    let lo = (v & 0xffff_ffff) as u32;
    assert(hi == (v / 0x100000000) as u32 && lo == (v % 0x100000000) as u32) by (bit_vector)
        requires
            hi == (v >> 32) as u32,
            lo == (v & 0xffff_ffff) as u32,
    ;
    push_u32_be(out, hi);
    push_u32_be(out, lo);
    assert(final(out)@ =~= old(out)@ + be_u64(v));
}

/// Appends a length as NBT writes it: the count as a 32-bit signed integer.
pub fn push_len32(out: &mut Vec<u8>, n: usize)
    ensures
        final(out)@ == old(out)@ + be_len32(n as nat),
{
    let m = n as u64;
    let u = m as u32;
    assert(u == (m % 0x100000000) as u32) by (bit_vector)
        requires
            u == m as u32,
    ;
    push_u32_be(out, u);
}

/// Appends an NBT string payload.
pub fn push_nbt_str(out: &mut Vec<u8>, bytes: &[u8])
    ensures
        final(out)@ == old(out)@ + nbt_str(bytes@),
{
    let n = bytes.len();
    let u = n as u16;
    assert(u == (n % 0x10000) as u16) by (bit_vector)
        requires
            u == n as u16,
    ;
    push_u16_be(out, u);
    push_bytes(out, bytes);
    assert(final(out)@ =~= old(out)@ + nbt_str(bytes@));
}

/// Appends a byte slice.
pub fn push_bytes(out: &mut Vec<u8>, bytes: &[u8])
    ensures
        final(out)@ == old(out)@ + bytes@,
{
    let mut i: usize = 0;
    while i < bytes.len()
        invariant
            i <= bytes.len(),
            out@ == old(out)@ + bytes@.take(i as int),
        decreases bytes.len() - i,
    {
        out.push(bytes[i]);
        i = i + 1;
        assert(out@ =~= old(out)@ + bytes@.take(i as int));
    }
    assert(bytes@.take(bytes.len() as int) =~= bytes@);
}

fn push_tag_header(out: &mut Vec<u8>, tag_type: u8, name: &str)
    ensures
        final(out)@ == old(out)@ + tag_header(tag_type, name.spec_bytes()),
{
    out.push(tag_type);
    push_nbt_str(out, name.as_bytes());
    assert(final(out)@ =~= old(out)@ + tag_header(tag_type, name.spec_bytes()));
}

// ---------------------------------------------------------------------------
// Writers
// ---------------------------------------------------------------------------

/// Writes the root tag of an NBT document into a borrowed buffer.
pub struct NbtWriter<'a> {
    pub out: &'a mut Vec<u8>,
}

impl<'a> NbtWriter<'a> {
    pub fn new(out: &'a mut Vec<u8>) -> (r: Self)
        ensures
            r.out@ == old(out)@,
            *final(out) == *final(r.out),
    {
        Self { out }
    }

    /// Writes a tag's type byte and its name.
    pub fn write_tag_header(&mut self, tag_type: u8, name: &str)
        ensures
            final(self).out@ == old(self).out@ + tag_header(tag_type, name.spec_bytes()),
            *final(final(self).out) == *final(old(self).out),
    {
        self.out.push(tag_type);
        self.write_string_payload(name);
        assert(final(self).out@ =~= old(self).out@ + tag_header(tag_type, name.spec_bytes()));
    }

    fn write_string_payload(&mut self, s: &str)
        ensures
            final(self).out@ == old(self).out@ + nbt_str(s.spec_bytes()),
            *final(final(self).out) == *final(old(self).out),
    {
        push_nbt_str(self.out, s.as_bytes());
    }

    /// Writes a compound named `name` whose children are already encoded in `body`.
    pub fn compound(&mut self, name: &str, body: &[u8])
        ensures
            final(self).out@ == old(self).out@ + named_compound(name.spec_bytes(), body@),
            *final(final(self).out) == *final(old(self).out),
    {
        self.write_tag_header(TAG_COMPOUND, name);
        push_bytes(self.out, body);
        self.out.push(TAG_END);
        assert(final(self).out@ =~= old(self).out@ + named_compound(name.spec_bytes(), body@));
    }

    pub fn int_tag(&mut self, name: &str, val: i32)
        ensures
            final(self).out@ == old(self).out@ + named_int(name.spec_bytes(), val),
            *final(final(self).out) == *final(old(self).out),
    {
        self.write_tag_header(TAG_INT, name);
        push_u32_be(self.out, val as u32);
        assert(final(self).out@ =~= old(self).out@ + named_int(name.spec_bytes(), val));
    }
}

/// Writes the children of a compound into a borrowed buffer.
pub struct CompoundWriter<'a> {
    pub out: &'a mut Vec<u8>,
}

impl<'a> CompoundWriter<'a> {
    pub fn new(out: &'a mut Vec<u8>) -> (r: Self)
        ensures
            r.out@ == old(out)@,
            *final(out) == *final(r.out),
    {
        Self { out }
    }

    fn write_tag_header(&mut self, tag_type: u8, name: &str)
        ensures
            final(self).out@ == old(self).out@ + tag_header(tag_type, name.spec_bytes()),
            *final(final(self).out) == *final(old(self).out),
    {
        push_tag_header(self.out, tag_type, name);
    }

    pub fn int_tag(&mut self, name: &str, val: i32)
        ensures
            final(self).out@ == old(self).out@ + named_int(name.spec_bytes(), val),
            *final(final(self).out) == *final(old(self).out),
    {
        self.write_tag_header(TAG_INT, name);
        push_u32_be(self.out, val as u32);
        assert(final(self).out@ =~= old(self).out@ + named_int(name.spec_bytes(), val));
    }

    pub fn long(&mut self, name: &str, val: i64)
        ensures
            final(self).out@ == old(self).out@ + named_long(name.spec_bytes(), val),
            *final(final(self).out) == *final(old(self).out),
    {
        self.write_tag_header(TAG_LONG, name);
        push_u64_be(self.out, val as u64);
        assert(final(self).out@ =~= old(self).out@ + named_long(name.spec_bytes(), val));
    }

    pub fn byte(&mut self, name: &str, val: i8)
        ensures
            final(self).out@ == old(self).out@ + named_byte(name.spec_bytes(), val),
            *final(final(self).out) == *final(old(self).out),
    {
        self.write_tag_header(TAG_BYTE, name);
        self.out.push(val as u8);
        assert(final(self).out@ =~= old(self).out@ + named_byte(name.spec_bytes(), val));
    }

    pub fn string(&mut self, name: &str, val: &str)
        ensures
            final(self).out@ == old(self).out@ + named_string(name.spec_bytes(), val.spec_bytes()),
            *final(final(self).out) == *final(old(self).out),
    {
        self.write_tag_header(TAG_STRING, name);
        push_nbt_str(self.out, val.as_bytes());
        assert(final(self).out@ =~= old(self).out@ + named_string(
            name.spec_bytes(),
            val.spec_bytes(),
        ));
    }

    pub fn byte_array(&mut self, name: &str, data: &[u8])
        ensures
            final(self).out@ == old(self).out@ + named_byte_array(name.spec_bytes(), data@),
            *final(final(self).out) == *final(old(self).out),
    {
        self.write_tag_header(TAG_BYTE_ARRAY, name);
        push_len32(self.out, data.len());
        push_bytes(self.out, data);
        assert(final(self).out@ =~= old(self).out@ + named_byte_array(name.spec_bytes(), data@));
    }

    pub fn long_array(&mut self, name: &str, data: &[i64])
        ensures
            final(self).out@ == old(self).out@ + named_long_array(name.spec_bytes(), data@),
            *final(final(self).out) == *final(old(self).out),
    {
        self.write_tag_header(TAG_LONG_ARRAY, name);
        push_len32(self.out, data.len());
        let ghost start = self.out@;
        let mut i: usize = 0;
        while i < data.len()
            invariant
                i <= data.len(),
                self.out@ == start + concat(data@.take(i as int).map_values(|v: i64| be_i64(v))),
                *final(self.out) == *final(old(self).out),
            decreases data.len() - i,
        {
            push_u64_be(self.out, data[i] as u64);
            proof {
                let f = |v: i64| be_i64(v);
                assert(data@.take(i + 1).map_values(f) == data@.take(i as int).map_values(f).push(
                    be_i64(data@[i as int]),
                ));
                lemma_concat_push(data@.take(i as int).map_values(f), be_i64(data@[i as int]));
            }
            i = i + 1;
        }
        assert(data@.take(data.len() as int) == data@);
        assert(final(self).out@ =~= old(self).out@ + named_long_array(name.spec_bytes(), data@));
    }

    pub fn int_array(&mut self, name: &str, data: &[i32])
        ensures
            final(self).out@ == old(self).out@ + named_int_array(name.spec_bytes(), data@),
            *final(final(self).out) == *final(old(self).out),
    {
        self.write_tag_header(TAG_INT_ARRAY, name);
        push_len32(self.out, data.len());
        let ghost start = self.out@;
        let mut i: usize = 0;
        while i < data.len()
            invariant
                i <= data.len(),
                self.out@ == start + concat(data@.take(i as int).map_values(|v: i32| be_i32(v))),
                *final(self.out) == *final(old(self).out),
            decreases data.len() - i,
        {
            push_u32_be(self.out, data[i] as u32);
            proof {
                let f = |v: i32| be_i32(v);
                assert(data@.take(i + 1).map_values(f) == data@.take(i as int).map_values(f).push(
                    be_i32(data@[i as int]),
                ));
                lemma_concat_push(data@.take(i as int).map_values(f), be_i32(data@[i as int]));
            }
            i = i + 1;
        }
        assert(data@.take(data.len() as int) == data@);
        assert(final(self).out@ =~= old(self).out@ + named_int_array(name.spec_bytes(), data@));
    }

    /// Writes a compound named `name` whose children are already encoded in `body`.
    pub fn compound(&mut self, name: &str, body: &[u8])
        ensures
            final(self).out@ == old(self).out@ + named_compound(name.spec_bytes(), body@),
            *final(final(self).out) == *final(old(self).out),
    {
        self.write_tag_header(TAG_COMPOUND, name);
        push_bytes(self.out, body);
        self.out.push(TAG_END);
        assert(final(self).out@ =~= old(self).out@ + named_compound(name.spec_bytes(), body@));
    }

    /// Writes a list of compounds; `items` holds each compound's payload, as
    /// `CompoundListWriter::push_compound` builds it.
    pub fn list_compounds(&mut self, name: &str, items: &Vec<Vec<u8>>)
        ensures
            final(self).out@ == old(self).out@ + named_compound_list(
                name.spec_bytes(),
                items@.map_values(|v: Vec<u8>| v@),
            ),
            *final(final(self).out) == *final(old(self).out),
    {
        self.write_tag_header(TAG_LIST, name);
        self.out.push(TAG_COMPOUND);
        push_len32(self.out, items.len());
        let ghost start = self.out@;
        let ghost f = |v: Vec<u8>| v@;
        let mut i: usize = 0;
        while i < items.len()
            invariant
                i <= items.len(),
                f == (|v: Vec<u8>| v@),
                self.out@ == start + concat(items@.take(i as int).map_values(f)),
                *final(self.out) == *final(old(self).out),
            decreases items.len() - i,
        {
            push_bytes(self.out, items[i].as_slice());
            proof {
                assert(items@.take(i + 1).map_values(f) == items@.take(i as int).map_values(f).push(
                    items@[i as int]@,
                ));
                lemma_concat_push(items@.take(i as int).map_values(f), items@[i as int]@);
            }
            i = i + 1;
        }
        assert(items@.take(items.len() as int) == items@);
        assert(final(self).out@ =~= old(self).out@ + named_compound_list(
            name.spec_bytes(),
            items@.map_values(f),
        ));
    }

    pub fn list_strings(&mut self, name: &str, vals: &[&str])
        ensures
            final(self).out@ == old(self).out@ + named_string_list(
                name.spec_bytes(),
                vals@.map_values(|s: &str| s.spec_bytes()),
            ),
            *final(final(self).out) == *final(old(self).out),
    {
        self.write_tag_header(TAG_LIST, name);
        self.out.push(TAG_STRING);
        push_len32(self.out, vals.len());
        let ghost start = self.out@;
        let ghost f = |s: &str| s.spec_bytes();
        let ghost g = |v: Seq<u8>| nbt_str(v);
        let mut i: usize = 0;
        while i < vals.len()
            invariant
                i <= vals.len(),
                f == (|s: &str| s.spec_bytes()),
                g == (|v: Seq<u8>| nbt_str(v)),
                self.out@ == start + concat(vals@.take(i as int).map_values(f).map_values(g)),
                *final(self.out) == *final(old(self).out),
            decreases vals.len() - i,
        {
            push_nbt_str(self.out, vals[i].as_bytes());
            proof {
                assert(vals@.take(i + 1).map_values(f).map_values(g) == vals@.take(
                    i as int,
                ).map_values(f).map_values(g).push(nbt_str(vals@[i as int].spec_bytes())));
                lemma_concat_push(
                    vals@.take(i as int).map_values(f).map_values(g),
                    nbt_str(vals@[i as int].spec_bytes()),
                );
            }
            i = i + 1;
        }
        assert(vals@.take(vals.len() as int) == vals@);
        assert(final(self).out@ =~= old(self).out@ + named_string_list(
            name.spec_bytes(),
            vals@.map_values(f),
        ));
    }
}

/// Builds the items of a compound list.
pub trait CompoundListWriter {
    /// Appends one compound, given its children's encoding, closed with `TAG_END`.
    fn push_compound(&mut self, body: &[u8]);
}

impl CompoundListWriter for Vec<Vec<u8>> {
    fn push_compound(&mut self, body: &[u8])
        ensures
            final(self)@.len() == old(self)@.len() + 1,
            forall|i: int| 0 <= i < old(self)@.len() ==> #[trigger] final(self)@[i] == old(self)@[i],
            final(self)@[old(self)@.len() as int]@ == body@ + seq![TAG_END],
    {
        let mut buf: Vec<u8> = Vec::new();
        push_bytes(&mut buf, body);
        buf.push(TAG_END);
        self.push(buf);
    }
}

} // verus!
