//! Fixed-width bit packing of palette indices.
use vstd::prelude::*;
use vstd::arithmetic::power2::{pow2, lemma_pow2_adds, lemma_pow2_pos, lemma_pow2_strictly_increases};
use vstd::arithmetic::div_mod::{lemma_fundamental_div_mod_converse, lemma_div_denominator};
use vstd::arithmetic::mul::lemma_mul_inequality;
use vstd::bits::{lemma_u64_shl_is_mul, lemma_u64_shr_is_div};

verus! {

/// Number of binary digits of `v` (0 for 0).
pub open spec fn bit_len(v: nat) -> nat
    decreases v,
{
    if v == 0 {
        0
    } else {
        1 + bit_len(v / 2)
    }
}

pub proof fn lemma_bit_len_bound(v: nat)
    ensures
        v < pow2(bit_len(v)),
        v > 0 ==> pow2((bit_len(v) - 1) as nat) <= v,
        bit_len(v) <= v,
    decreases v,
{
    if v > 0 {
        lemma_bit_len_bound(v / 2);
        vstd::arithmetic::power2::lemma_pow2_unfold(bit_len(v));
        if v / 2 > 0 {
            vstd::arithmetic::power2::lemma_pow2_unfold((bit_len(v) - 1) as nat);
        } else {
            assert(bit_len(v / 2) == 0);
            assert(pow2(0) == 1) by {
                vstd::arithmetic::power2::lemma2_to64();
            }
        }
    } else {
        lemma_pow2_pos(0);
    }
}

/// The number of binary digits of `v`.
pub fn bit_length(v: usize) -> (r: usize)
    ensures
        r == bit_len(v as nat),
        r <= 64,
{
    let mut x = v;
    let mut b: usize = 0;
    proof {
        lemma_bit_len_64(v as nat);
    }
    while x > 0
        invariant
            bit_len(v as nat) == b + bit_len(x as nat),
            b + bit_len(x as nat) <= 64,
        decreases x,
    {
        proof {
            lemma_bit_len_64(v as nat);
        }
        x = x / 2;
        b = b + 1;
    }
    proof {
        lemma_bit_len_64(v as nat);
    }
    b
}

proof fn lemma_bit_len_64(v: nat)
    requires
        v <= usize::MAX,
    ensures
        bit_len(v) <= 64,
{
    lemma_bit_len_bound(v);
    if bit_len(v) > 64 {
        let k = (bit_len(v) - 1) as nat;
        assert(pow2(64) == 0x10000000000000000) by {
            vstd::arithmetic::power2::lemma2_to64_rest();
        }
        if k > 64 {
            lemma_pow2_strictly_increases(64, k);
        }
        assert(pow2(k) <= v);
        assert(usize::MAX <= 0xffff_ffff_ffff_ffff);
    }
}

// ---------------------------------------------------------------------------
// A little-endian bit stream of fixed-width values (schematic block data)
// ---------------------------------------------------------------------------

/// The first `n` values of `data`, `bits` binary digits each, as one number:
/// value `i` occupies digits `i * bits` up to `(i + 1) * bits`.
pub open spec fn packed_value(data: Seq<u32>, bits: nat, n: int) -> nat
    decreases n,
{
    if n <= 0 {
        0
    } else {
        packed_value(data, bits, n - 1) + data[n - 1] as nat * pow2(((n - 1) * bits) as nat)
    }
}

/// Byte `k` (least significant first) of `v`.
pub open spec fn byte_of(v: nat, k: nat) -> u8 {
    ((v / pow2(8 * k)) % 256) as u8
}

/// Every value of `data` fits in `bits` binary digits.
pub open spec fn fits(data: Seq<u32>, bits: nat) -> bool {
    forall|i: int| 0 <= i < data.len() ==> (#[trigger] data[i]) < pow2(bits)
}

/// The bytes of the stream: enough bytes for `data.len() * bits` digits, least significant first.
pub open spec fn packed_bytes(data: Seq<u32>, bits: nat) -> Seq<u8> {
    Seq::new(
        ((data.len() * bits + 7) / 8) as nat,
        |k: int| byte_of(packed_value(data, bits, data.len() as int), k as nat),
    )
}

proof fn lemma_packed_value_bound(data: Seq<u32>, bits: nat, n: int)
    requires
        0 <= n <= data.len(),
        fits(data, bits),
    ensures
        packed_value(data, bits, n) < pow2((n * bits) as nat),
    decreases n,
{
    if n <= 0 {
        assert(n * bits == 0) by (nonlinear_arith)
            requires
                n == 0,
        ;
        lemma_pow2_pos(0);
    } else {
        lemma_packed_value_bound(data, bits, n - 1);
        let e = ((n - 1) * bits) as nat;
        assert(n * bits == (n - 1) * bits + bits) by (nonlinear_arith);
        assert(((n * bits) as nat) == e + bits);
        lemma_pow2_adds(e, bits);
        let p = packed_value(data, bits, n - 1);
        let d = data[n - 1] as nat;
        assert(data[n - 1] < pow2(bits));
        assert(p < pow2(e));
        assert(packed_value(data, bits, n) == p + d * pow2(e));
        lemma_mul_inequality((d + 1) as int, pow2(bits) as int, pow2(e) as int);
        assert((d + 1) * pow2(e) == d * pow2(e) + pow2(e)) by (nonlinear_arith);
        assert(pow2(bits) * pow2(e) == pow2(e) * pow2(bits)) by (nonlinear_arith);
        assert(p + d * pow2(e) < (d + 1) * pow2(e));
        assert((d + 1) * pow2(e) <= pow2(e) * pow2(bits));
        assert(pow2(e) * pow2(bits) == pow2(e + bits));
    }
}

/// `(a + b * 2^(s + t)) / 2^t == a / 2^t + b * 2^s`.
proof fn lemma_div_add_multiple(a: nat, b: nat, s: nat, t: nat)
    ensures
        (a + b * pow2(s + t)) / pow2(t) == a / pow2(t) + b * pow2(s),
{
    lemma_pow2_pos(t);
    lemma_pow2_adds(s, t);
    let pt = pow2(t) as int;
    let q = a as int / pt;
    let r = a as int % pt;
    vstd::arithmetic::div_mod::lemma_fundamental_div_mod(a as int, pt);
    vstd::arithmetic::div_mod::lemma_mod_pos_bound(a as int, pt);
    let x = a + b * pow2(s + t);
    assert(x == (q + b * pow2(s)) * pt + r) by (nonlinear_arith)
        requires
            x == a + b * pow2(s + t),
            pow2(s + t) == pow2(s) * pt,
            a == q * pt + r,
    ;
    vstd::arithmetic::div_mod::lemma_mod_pos_bound(a as int, pt);
    lemma_fundamental_div_mod_converse(x as int, pt, q + b * pow2(s), r);
}

/// Adding a multiple of `2^(8(k+1))` does not change byte `k`.
proof fn lemma_byte_stable(a: nat, b: nat, m: nat, k: nat)
    requires
        8 * (k + 1) <= m,
    ensures
        byte_of(a + b * pow2(m), k) == byte_of(a, k),
{
    let s = (m - 8 * k - 8) as nat;
    assert(m == (s + 8) + 8 * k);
    lemma_div_add_multiple(a, b, s + 8, 8 * k);
    assert((a + b * pow2(m)) / pow2(8 * k) == a / pow2(8 * k) + b * pow2(s + 8));
    lemma_pow2_adds(s, 8);
    assert(pow2(8) == 256) by {
        vstd::arithmetic::power2::lemma2_to64();
    }
    let y = a / pow2(8 * k);
    assert(b * pow2(s + 8) == 256 * (b * pow2(s))) by (nonlinear_arith)
        requires
            pow2(s + 8) == pow2(s) * 256,
    ;
    let bigA: int = (b * pow2(s)) as int;
    let bigY: int = y as int;
    vstd::arithmetic::div_mod::lemma_mod_multiples_vanish(bigA, bigY, 256);
    assert((256 * bigA + bigY) % 256 == bigY % 256);
    assert(y + b * pow2(s + 8) == 256 * bigA + bigY) by (nonlinear_arith)
        requires
            b * pow2(s + 8) == 256 * (b * pow2(s)),
            bigA == b * pow2(s),
            bigY == y,
    ;
}

/// Byte `k` of `v` is the low byte of `v / 2^(8k)`; dividing again by 256 moves to byte `k + 1`.
proof fn lemma_next_byte(v: nat, k: nat)
    ensures
        (v / pow2(8 * k)) / 256 == v / pow2(8 * (k + 1)),
{
    lemma_pow2_pos(8 * k);
    lemma_pow2_adds(8 * k, 8);
    assert(pow2(8) == 256) by {
        vstd::arithmetic::power2::lemma2_to64();
    }
    lemma_div_denominator(v as int, pow2(8 * k) as int, 256);
    assert(8 * (k + 1) == 8 * k + 8);
}

proof fn lemma_or_is_add(a: u64, b: u64, s: u64)
    requires
        s < 8,
        a < (1u64 << s),
        b < 0x1_0000_0000,
    ensures
        a | (b << s) == a + (b << s),
        (b << s) < 0x100_0000_0000,
{
    assert(a | (b << s) == a + (b << s) && (b << s) < 0x100_0000_0000) by (bit_vector)
        requires
            s < 8,
            a < (1u64 << s),
            b < 0x1_0000_0000,
    ;
}

/// Packs `data`, `bits` binary digits per value, least significant digit first,
/// into bytes; the last byte is padded with zero digits.
pub fn pack_block_data(data: &[u32], bits: usize) -> (r: Vec<u8>)
    requires
        1 <= bits <= 57,
        fits(data@, bits as nat),
    ensures
        r@ == packed_bytes(data@, bits as nat),
{
    let mut result: Vec<u8> = Vec::new();
    let mut current: u64 = 0;
    let mut bits_used: usize = 0;
    let ghost b = bits as nat;
    let mut i: usize = 0;
    proof {
        lemma_pow2_pos(0);
        assert(pow2(0) == 1) by {
            vstd::arithmetic::power2::lemma2_to64();
        }
    }
    while i < data.len()
        invariant
            1 <= bits <= 57,
            b == bits as nat,
            fits(data@, b),
            i <= data.len(),
            bits_used < 8,
            i * bits == 8 * result@.len() + bits_used,
            current as nat == packed_value(data@, b, i as int) / pow2(8 * result@.len()),
            (current as nat) < pow2(bits_used as nat),
            forall|k: int|
                0 <= k < result@.len() ==> #[trigger] result@[k] == byte_of(
                    packed_value(data@, b, i as int),
                    k as nat,
                ),
        decreases data.len() - i,
    {
        let val = data[i];
        let ghost p_old = packed_value(data@, b, i as int);
        let ghost p_new = packed_value(data@, b, i + 1);
        let ghost e = result@.len();
        proof {
            assert(p_new == p_old + val as nat * pow2((i * bits) as nat));
            // The new value lands above the bits still held in `current`.
            assert((i * bits) as nat == bits_used as nat + 8 * e);
            lemma_div_add_multiple(p_old, val as nat, bits_used as nat, 8 * e);
            assert(pow2(8) == 256 && pow2(7) == 128) by {
                vstd::arithmetic::power2::lemma2_to64();
            }
            if bits_used < 7 {
                lemma_pow2_strictly_increases(bits_used as nat, 7);
            }
            assert(pow2(bits_used as nat) <= 128);
            assert(val as nat * pow2(bits_used as nat) <= 0xffff_ffff * 128) by (nonlinear_arith)
                requires
                    pow2(bits_used as nat) <= 128,
                    val <= 0xffff_ffff,
            ;
            lemma_u64_shl_is_mul(1, bits_used as u64);
            assert(val < 0x1_0000_0000);
            lemma_or_is_add(current, val as u64, bits_used as u64);
            lemma_u64_shl_is_mul(val as u64, bits_used as u64);
            // Earlier bytes are unaffected.
            assert forall|k: int| 0 <= k < result@.len() implies #[trigger] result@[k] == byte_of(
                p_new,
                k as nat,
            ) by {
                lemma_byte_stable(p_old, val as nat, (i * bits) as nat, k as nat);
            }
            // The enlarged remainder fits in `bits_used + bits` digits.
            lemma_pow2_adds(bits_used as nat, b);
            assert((val as nat) + 1 <= pow2(b));
            lemma_mul_inequality((val as nat + 1) as int, pow2(b) as int, pow2(bits_used as nat) as int);
            assert((val as nat + 1) * pow2(bits_used as nat) == val as nat * pow2(bits_used as nat)
                + pow2(bits_used as nat)) by (nonlinear_arith);
        }
        current = current | ((val as u64) << bits_used);
        bits_used = bits_used + bits;
        proof {
            assert((i + 1) * bits == i * bits + bits) by (nonlinear_arith);
            assert(current as nat == p_new / pow2(8 * result@.len()));
            assert((current as nat) < pow2(bits_used as nat));
        }
        while bits_used >= 8
            invariant
                1 <= bits <= 57,
                b == bits as nat,
                i < data.len(),
                bits_used < 8 + 57,
                p_new == packed_value(data@, b, i + 1),
                (i + 1) * bits == 8 * result@.len() + bits_used,
                current as nat == p_new / pow2(8 * result@.len()),
                (current as nat) < pow2(bits_used as nat),
                forall|k: int|
                    0 <= k < result@.len() ==> #[trigger] result@[k] == byte_of(p_new, k as nat),
            decreases bits_used,
        {
            let ghost e2 = result@.len();
            proof {
                assert(pow2(8) == 256) by {
                    vstd::arithmetic::power2::lemma2_to64();
                }
                assert((current as u8) == (current % 256) as u8) by (bit_vector);
                lemma_next_byte(p_new, e2);
                lemma_u64_shr_is_div(current, 8);
                lemma_pow2_adds((bits_used - 8) as nat, 8);
                assert(current as nat / 256 < pow2((bits_used - 8) as nat)) by {
                    vstd::arithmetic::div_mod::lemma_div_is_ordered(
                        current as int,
                        (pow2((bits_used - 8) as nat) * 256 - 1) as int,
                        256,
                    );
                    vstd::arithmetic::div_mod::lemma_fundamental_div_mod_converse(
                        (pow2((bits_used - 8) as nat) * 256 - 1) as int,
                        256,
                        (pow2((bits_used - 8) as nat) - 1) as int,
                        255,
                    );
                }
            }
            result.push(current as u8);
            current = current >> 8;
            bits_used = bits_used - 8;
            proof {
                assert(result@[e2 as int] == byte_of(p_new, e2 as nat));
            }
        }
        i = i + 1;
    }
    let ghost p = packed_value(data@, b, data@.len() as int);
    let ghost e = result@.len();
    let ghost bu = bits_used as int;
    if bits_used > 0 {
        proof {
            lemma_pow2_strictly_increases(bits_used as nat, 8);
            assert(pow2(8) == 256) by {
                vstd::arithmetic::power2::lemma2_to64();
            }
            assert(current < 256);
            vstd::arithmetic::div_mod::lemma_small_mod(current as nat, 256);
        }
        result.push(current as u8);
        proof {
            assert(result@[e as int] == byte_of(p, e as nat));
        }
    }
    proof {
        let n = data@.len() as int;
        let len = result@.len() as int;
        assert(len == (n * b + 7) / 8) by (nonlinear_arith)
            requires
                n * b == 8 * e + bu,
                0 <= bu < 8,
                len == e + (if bu > 0 { 1int } else { 0int }),
        ;
        assert(result@ =~= packed_bytes(data@, b));
    }
    result
}


// ---------------------------------------------------------------------------
// Values packed into 64-bit words without crossing word boundaries (section block states)
// ---------------------------------------------------------------------------

/// The values that word `k` holds when each word takes `per_word` values.
pub open spec fn word_values(values: Seq<u32>, per_word: nat, k: int) -> Seq<u32> {
    let start = k * per_word;
    let end = if start + per_word <= values.len() { start + per_word } else { values.len() as int };
    values.subrange(start, end)
}

/// The words: word `k` holds values `k * per_word ..` in `bits`-digit fields, lowest field first.
pub open spec fn packed_words(values: Seq<u32>, bits: nat) -> Seq<u64> {
    let per_word = 64nat / bits;
    Seq::new(
        ((values.len() + per_word - 1) / (per_word as int)) as nat,
        |k: int|
            packed_value(
                word_values(values, per_word, k),
                bits,
                word_values(values, per_word, k).len() as int,
            ) as u64,
    )
}

proof fn lemma_or_is_add_wide(a: u64, b: u64, s: u64)
    requires
        s < 64,
        a < (1u64 << s),
        b <= (0xffff_ffff_ffff_ffffu64 >> s),
    ensures
        a | (b << s) == a + (b << s),
        a + (b << s) <= 0xffff_ffff_ffff_ffff,
{
    assert(a | (b << s) == a + (b << s) && a + (b << s) <= 0xffff_ffff_ffff_ffff) by (bit_vector)
        requires
            s < 64,
            a < (1u64 << s),
            b <= (0xffff_ffff_ffff_ffffu64 >> s),
    ;
}

/// Packs `values` into 64-bit words, `64 / bits` values per word, each value in a
/// `bits`-digit field starting from the lowest digits; no value crosses a word boundary.
pub fn pack_longs(values: &[u32], bits: usize) -> (r: Vec<i64>)
    requires
        1 <= bits <= 32,
        fits(values@, bits as nat),
        values@.len() + 64 <= usize::MAX,
    ensures
        r@.len() == packed_words(values@, bits as nat).len(),
        forall|k: int| 0 <= k < r@.len() ==> #[trigger] (r@[k] as u64) == packed_words(values@, bits as nat)[k],
{
    let per_word: usize = 64 / bits;
    assert(per_word >= 2 && per_word * bits <= 64) by (nonlinear_arith)
        requires
            1 <= bits <= 32,
            per_word == 64int / (bits as int),
    ;
    let count = (values.len() + per_word - 1) / per_word;
    let ghost b = bits as nat;
    let ghost pw = per_word as nat;
    let mut longs: Vec<i64> = Vec::new();
    let mut k: usize = 0;
    while k < count
        invariant
            1 <= bits <= 32,
            b == bits as nat,
            per_word == 64int / (bits as int),
            pw == per_word as nat,
            per_word >= 2,
            per_word * bits <= 64,
            fits(values@, b),
            values@.len() + 64 <= usize::MAX,
            count == (values@.len() + per_word - 1) / (per_word as int),
            k <= count,
            longs@.len() == k,
            forall|j: int| 0 <= j < k ==> #[trigger] (longs@[j] as u64) == packed_words(values@, b)[j],
        decreases count - k,
    {
        let ghost wv = word_values(values@, pw, k as int);
        proof {
            assert(k * per_word < values@.len()) by (nonlinear_arith)
                requires
                    k < count,
                    count == (values@.len() + per_word - 1) / (per_word as int),
                    per_word >= 2,
            ;
        }
        let start = k * per_word;
        let mut word: u64 = 0;
        let mut s: usize = 0;
        proof {
            lemma_pow2_pos(0);
        }
        while s < per_word && start + s < values.len()
            invariant
                1 <= bits <= 32,
                b == bits as nat,
                per_word * bits <= 64,
                fits(values@, b),
                start == k * per_word,
                start < values@.len(),
                values@.len() + 64 <= usize::MAX,
                wv == word_values(values@, pw, k as int),
                pw == per_word as nat,
                s <= per_word,
                start + s <= values@.len(),
                word as nat == packed_value(wv, b, s as int),
                (word as nat) < pow2((s * bits) as nat),
            decreases per_word - s,
        {
            let v = values[start + s];
            let ghost old_word = word;
            proof {
                assert(wv[s as int] == v);
                assert(v < pow2(b));
                assert((s + 1) * bits <= 64) by (nonlinear_arith)
                    requires
                        s < per_word,
                        per_word * bits <= 64,
                ;
                assert(s * bits < 64) by (nonlinear_arith)
                    requires
                        (s + 1) * bits <= 64,
                        bits >= 1,
                ;
                assert(((s + 1) * bits) as nat == (s * bits) as nat + b) by (nonlinear_arith)
                    requires
                        b == bits,
                ;
                let sh = (s * bits) as nat;
                lemma_pow2_adds(sh, b);
                // The shifted value still fits in 64 bits.
                assert(pow2(64) == 0x10000000000000000) by {
                    vstd::arithmetic::power2::lemma2_to64_rest();
                }
                if ((s + 1) * bits) < 64 {
                    lemma_pow2_strictly_increases(((s + 1) * bits) as nat, 64);
                }
                assert(v as nat + 1 <= pow2(b));
                lemma_mul_inequality((v as nat + 1) as int, pow2(b) as int, pow2(sh) as int);
                assert((v as nat + 1) * pow2(sh) == v as nat * pow2(sh) + pow2(sh)) by (nonlinear_arith);
                assert(pow2(b) * pow2(sh) == pow2(sh) * pow2(b)) by (nonlinear_arith);
                assert(v as nat * pow2(sh) + pow2(sh) <= 0x10000000000000000);
                lemma_u64_shl_is_mul(v as u64, sh as u64);
                lemma_pow2_strictly_increases(sh, 64);
                lemma_u64_shl_is_mul(1, sh as u64);
                lemma_u64_shr_is_div(0xffff_ffff_ffff_ffffu64, sh as u64);
                assert(v as nat <= 0xffff_ffff_ffff_ffffnat / pow2(sh)) by {
                    vstd::arithmetic::div_mod::lemma_div_is_ordered(
                        (v as nat * pow2(sh)) as int,
                        0xffff_ffff_ffff_ffff,
                        pow2(sh) as int,
                    );
                    vstd::arithmetic::div_mod::lemma_div_multiples_vanish(v as int, pow2(sh) as int);
                }
                lemma_or_is_add_wide(word, v as u64, sh as u64);
                assert(wv.subrange(0, s + 1) == wv.subrange(0, s as int).push(v));
                assert(packed_value(wv, b, s + 1) == packed_value(wv, b, s as int) + v as nat * pow2(sh));
            }
            word = word | ((v as u64) << (s * bits));
            s = s + 1;
        }
        proof {
            assert(s as int == wv.len());
            assert((word as i64) as u64 == word) by (bit_vector);
        }
        longs.push(word as i64);
        k = k + 1;
    }
    longs
}

/// Reading field `i` back: the `bits` digits of the packed number that start at digit
/// `i * bits` are value `i`.
pub proof fn lemma_unpack(data: Seq<u32>, bits: nat, n: int, i: int)
    requires
        0 <= i < n <= data.len(),
        fits(data, bits),
    ensures
        (packed_value(data, bits, n) / pow2((i * bits) as nat)) % pow2(bits) == data[i] as nat,
    decreases n,
{
    let sh = (i * bits) as nat;
    lemma_pow2_pos(sh);
    lemma_pow2_pos(bits);
    if n == i + 1 {
        lemma_packed_value_bound(data, bits, i);
        let p = packed_value(data, bits, i);
        assert(packed_value(data, bits, n) == p + data[i] as nat * pow2(sh));
        lemma_div_add_multiple(p, data[i] as nat, 0, sh);
        assert(pow2(0) == 1) by {
            vstd::arithmetic::power2::lemma2_to64();
        }
        assert(p / pow2(sh) == 0) by {
            vstd::arithmetic::div_mod::lemma_basic_div(p as int, pow2(sh) as int);
        }
        assert(data[i] < pow2(bits));
        vstd::arithmetic::div_mod::lemma_small_mod(data[i] as nat, pow2(bits));
    } else {
        lemma_unpack(data, bits, n - 1, i);
        let p = packed_value(data, bits, n - 1);
        let d = data[n - 1] as nat;
        let top = ((n - 1) * bits) as nat;
        let gap = (top - sh - bits) as nat;
        assert((n - 1) * bits >= (i + 1) * bits) by (nonlinear_arith)
            requires
                n - 1 >= i + 1,
                bits >= 0,
        ;
        assert((i + 1) * bits == i * bits + bits) by (nonlinear_arith);
        assert(top == (gap + bits) + sh);
        lemma_div_add_multiple(p, d, gap + bits, sh);
        lemma_pow2_adds(gap, bits);
        let bigA: int = (d * pow2(gap)) as int;
        let bigY: int = (p / pow2(sh)) as int;
        vstd::arithmetic::div_mod::lemma_mod_multiples_vanish(bigA, bigY, pow2(bits) as int);
        assert(d * pow2(gap + bits) == pow2(bits) * bigA) by (nonlinear_arith)
            requires
                pow2(gap + bits) == pow2(gap) * pow2(bits),
                bigA == d * pow2(gap),
        ;
        assert(packed_value(data, bits, n) == p + d * pow2(top));
    }
}


// ---------------------------------------------------------------------------
// Reading packed data back
// ---------------------------------------------------------------------------

/// The number that a byte sequence spells, least significant byte first.
pub open spec fn le_value(s: Seq<u8>) -> nat
    decreases s.len(),
{
    if s.len() == 0 {
        0
    } else {
        le_value(s.drop_last()) + s.last() as nat * pow2((8 * (s.len() - 1)) as nat)
    }
}

/// The first `m` bytes of `v` spell `v` modulo `2^(8m)`.
proof fn lemma_le_value_bytes(v: nat, m: nat)
    ensures
        le_value(Seq::new(m, |k: int| byte_of(v, k as nat))) == v % pow2(8 * m),
    decreases m,
{
    let s = Seq::new(m, |k: int| byte_of(v, k as nat));
    if m == 0 {
        assert(pow2(0) == 1) by {
            vstd::arithmetic::power2::lemma2_to64();
        }
        assert(v % 1 == 0);
    } else {
        let m1 = (m - 1) as nat;
        let t = Seq::new(m1, |k: int| byte_of(v, k as nat));
        assert(s.drop_last() =~= t);
        lemma_le_value_bytes(v, m1);
        let a = pow2(8 * m1);
        lemma_pow2_pos(8 * m1);
        lemma_pow2_adds(8 * m1, 8);
        assert(pow2(8) == 256) by {
            vstd::arithmetic::power2::lemma2_to64();
        }
        assert(8 * m == 8 * m1 + 8);
        vstd::arithmetic::div_mod::lemma_mod_breakdown(v as int, a as int, 256);
        assert(a * 256 == pow2(8 * m));
        assert(s.last() as nat == (v / a) % 256);
        assert(le_value(s) == le_value(t) + s.last() as nat * a);
        assert((v as int) % (a as int * 256) == a * ((v as int / a as int) % 256) + (v as int) % (
        a as int));
        assert(s.last() as nat * a == a * ((v / a) % 256)) by (nonlinear_arith)
            requires
                s.last() as nat == (v / a) % 256,
        ;
    }
}

/// Reading the byte stream back: the bytes spell the packed number, so the `bits` digits that
/// start at digit `i * bits` are value `i`.
pub proof fn lemma_packed_bytes_read_back(data: Seq<u32>, bits: nat, i: int)
    requires
        fits(data, bits),
        0 <= i < data.len(),
    ensures
        le_value(packed_bytes(data, bits)) == packed_value(data, bits, data.len() as int),
        (le_value(packed_bytes(data, bits)) / pow2((i * bits) as nat)) % pow2(bits) == data[i] as nat,
{
    let n = data.len() as int;
    let v = packed_value(data, bits, n);
    let m = ((n * bits + 7) / 8) as nat;
    assert(packed_bytes(data, bits) =~= Seq::new(m, |k: int| byte_of(v, k as nat)));
    lemma_le_value_bytes(v, m);
    lemma_packed_value_bound(data, bits, n);
    assert(n * bits >= 0) by (nonlinear_arith)
        requires
            n >= 0,
    ;
    assert(8 * m >= n * bits);
    if 8 * m > n * bits {
        lemma_pow2_strictly_increases((n * bits) as nat, 8 * m);
    }
    vstd::arithmetic::div_mod::lemma_small_mod(v, pow2(8 * m));
    lemma_unpack(data, bits, n, i);
}

/// Binary digit `k` of `v`.
pub open spec fn digit(v: nat, k: nat) -> nat {
    (v / pow2(k)) % 2
}

/// Bit `j` of a byte stream, counting from the least significant bit of the first byte.
pub open spec fn stream_bit(bytes: Seq<u8>, j: int) -> nat {
    digit(bytes[j / 8] as nat, (j % 8) as nat)
}

/// Digits below `c` are untouched by reducing modulo `2^c`.
proof fn lemma_digit_below(x: nat, c: nat, k: nat)
    requires
        k < c,
    ensures
        digit(x % pow2(c), k) == digit(x, k),
{
    lemma_pow2_pos(c);
    lemma_pow2_pos(k);
    let q = x / pow2(c);
    let r = x % pow2(c);
    vstd::arithmetic::div_mod::lemma_fundamental_div_mod(x as int, pow2(c) as int);
    let g = (c - k - 1) as nat;
    assert(c == (g + 1) + k);
    assert(x == r + q * pow2(c)) by (nonlinear_arith)
        requires
            x == pow2(c) * q + r,
    ;
    lemma_div_add_multiple(r, q, g + 1, k);
    lemma_pow2_adds(g, 1);
    assert(pow2(1) == 2) by {
        vstd::arithmetic::power2::lemma2_to64();
    }
    let bigA: int = (q * pow2(g)) as int;
    let bigY: int = (r / pow2(k)) as int;
    assert(q * pow2(g + 1) == 2 * bigA) by (nonlinear_arith)
        requires
            pow2(g + 1) == pow2(g) * 2,
            bigA == q * pow2(g),
    ;
    vstd::arithmetic::div_mod::lemma_mod_multiples_vanish(bigA, bigY, 2);
    assert(x / pow2(k) == 2 * bigA + bigY);
}

/// Bit `j` of the byte stream of `v` is digit `j` of `v`.
proof fn lemma_stream_bit(v: nat, m: nat, j: int)
    requires
        0 <= j < 8 * m,
    ensures
        j / 8 < m,
        stream_bit(Seq::new(m, |k: int| byte_of(v, k as nat)), j) == digit(v, j as nat),
{
    let q = (j / 8) as nat;
    let r = (j % 8) as nat;
    let y = v / pow2(8 * q);
    lemma_pow2_pos(8 * q);
    assert(pow2(8) == 256) by {
        vstd::arithmetic::power2::lemma2_to64();
    }
    assert((y % 256) < 256);
    assert(byte_of(v, q) as nat == y % 256);
    lemma_digit_below(y, 8, r);
    lemma_pow2_pos(r);
    lemma_div_denominator(v as int, pow2(8 * q) as int, pow2(r) as int);
    lemma_pow2_adds(8 * q, r);
    assert(8 * q + r == j);
}

/// Reading the byte stream back bit by bit: bit `i * bits + k` of the stream is digit `k` of
/// value `i`, and every bit past the last value is 0.
pub proof fn lemma_packed_bits(data: Seq<u32>, bits: nat)
    requires
        fits(data, bits),
    ensures
        8 * packed_bytes(data, bits).len() >= data.len() * bits,
        forall|i: int, k: int|
            0 <= i < data.len() && 0 <= k < bits ==> #[trigger] stream_bit(
                packed_bytes(data, bits),
                i * bits + k,
            ) == digit(#[trigger] data[i] as nat, k as nat),
        forall|j: int|
            data.len() * bits <= j < 8 * packed_bytes(data, bits).len() ==> #[trigger] stream_bit(
                packed_bytes(data, bits),
                j,
            ) == 0,
{
    let n = data.len() as int;
    let v = packed_value(data, bits, n);
    let m = ((n * bits + 7) / 8) as nat;
    assert(packed_bytes(data, bits) =~= Seq::new(m, |k: int| byte_of(v, k as nat)));
    assert(n * bits >= 0) by (nonlinear_arith)
        requires
            n >= 0,
    ;
    assert(8 * m >= n * bits);
    assert forall|i: int, k: int| 0 <= i < data.len() && 0 <= k < bits implies #[trigger] stream_bit(
        packed_bytes(data, bits),
        i * bits + k,
    ) == digit(#[trigger] data[i] as nat, k as nat) by {
        let j = i * bits + k;
        assert(0 <= i * bits && j < n * bits) by (nonlinear_arith)
            requires
                0 <= i < n,
                0 <= k < bits,
                j == i * bits + k,
        ;
        lemma_stream_bit(v, m, j);
        let sh = (i * bits) as nat;
        lemma_pow2_pos(sh);
        lemma_pow2_pos(k as nat);
        lemma_pow2_adds(sh, k as nat);
        lemma_div_denominator(v as int, pow2(sh) as int, pow2(k as nat) as int);
        lemma_unpack(data, bits, n, i);
        lemma_digit_below(v / pow2(sh), bits, k as nat);
    }
    assert forall|j: int| data.len() * bits <= j < 8 * packed_bytes(data, bits).len() implies #[trigger] stream_bit(
        packed_bytes(data, bits),
        j,
    ) == 0 by {
        lemma_stream_bit(v, m, j);
        lemma_packed_value_bound(data, bits, n);
        if j > n * bits {
            lemma_pow2_strictly_increases((n * bits) as nat, j as nat);
        }
        lemma_pow2_pos(j as nat);
        vstd::arithmetic::div_mod::lemma_basic_div(v as int, pow2(j as nat) as int);
    }
}

/// Reading a packed word back: field `j` of word `k` (the `bits` digits from digit `j * bits`)
/// is value `k * (64 / bits) + j`.
pub proof fn lemma_word_field(values: Seq<u32>, bits: nat, k: int, j: int)
    requires
        1 <= bits <= 32,
        fits(values, bits),
        0 <= j < 64nat / bits,
        0 <= k * (64nat / bits) + j < values.len(),
    ensures
        0 <= k < packed_words(values, bits).len(),
        (packed_words(values, bits)[k] as nat / pow2((j * bits) as nat)) % pow2(bits)
            == values[k * (64nat / bits) + j] as nat,
{
    let per = 64nat / bits;
    let w = word_values(values, per, k);
    assert(per >= 2) by (nonlinear_arith)
        requires
            per == 64nat / bits,
            1 <= bits <= 32,
    ;
    assert(k >= 0) by (nonlinear_arith)
        requires
            k * per + j >= 0,
            j < per,
            per > 0,
    ;
    assert(k * per + per == (k + 1) * per) by (nonlinear_arith);
    assert(k < (values.len() + per - 1) / (per as int)) by (nonlinear_arith)
        requires
            k >= 0,
            per > 0,
            k * per + j < values.len(),
            j >= 0,
    ;
    let start = k * per;
    assert(w.len() <= per);
    assert(w[j] == values[start + j]);
    assert(fits(w, bits));
    lemma_packed_value_bound(w, bits, w.len() as int);
    assert(w.len() * bits <= 64) by (nonlinear_arith)
        requires
            w.len() <= per,
            per == 64nat / bits,
            bits >= 1,
    ;
    if w.len() * bits < 64 {
        lemma_pow2_strictly_increases((w.len() * bits) as nat, 64);
    }
    assert(pow2(64) == 0x1_0000_0000_0000_0000) by {
        vstd::arithmetic::power2::lemma2_to64();
    }
    lemma_unpack(w, bits, w.len() as int, j);
}

} // verus!
