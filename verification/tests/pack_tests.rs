use chunky::export::pack_to_bytes;
use chunky::pack::{bit_length, pack_block_data, pack_longs};

fn read_field(bytes: &[u8], bits: usize, i: usize) -> u32 {
    let mut v: u32 = 0;
    for b in 0..bits {
        let d = i * bits + b;
        if (bytes[d / 8] >> (d % 8)) & 1 == 1 {
            v |= 1 << b;
        }
    }
    v
}

#[test]
fn bit_lengths() {
    assert_eq!(bit_length(0), 0);
    assert_eq!(bit_length(1), 1);
    assert_eq!(bit_length(2), 2);
    assert_eq!(bit_length(255), 8);
    assert_eq!(bit_length(256), 9);
    assert_eq!(bit_length(usize::MAX), usize::BITS as usize);
}

#[test]
fn block_data_packs_low_digits_first() {
    // 1, 2, 3 in two digits each: 01 | 10 << 2 | 11 << 4 = 57.
    assert_eq!(pack_block_data(&[1, 2, 3], 2), vec![57]);
    // Nine values of one digit spill into a second byte.
    assert_eq!(pack_block_data(&[1, 0, 0, 0, 0, 0, 0, 0, 1], 1), vec![1, 1]);
    assert_eq!(pack_block_data(&[], 5), Vec::<u8>::new());
    assert_eq!(pack_block_data(&[0x1234], 16), vec![0x34, 0x12]);
}

#[test]
fn block_data_reads_back() {
    let data: Vec<u32> = (0..100u32).map(|i| (i * 37) % 29).collect();
    for bits in [5usize, 7, 13] {
        let bytes = pack_block_data(&data, bits);
        assert_eq!(bytes.len(), (data.len() * bits + 7) / 8);
        for (i, &v) in data.iter().enumerate() {
            assert_eq!(read_field(&bytes, bits, i), v);
        }
    }
}

#[test]
fn longs_do_not_cross_words() {
    assert_eq!(pack_longs(&[1, 2, 3], 4), vec![0x321]);
    // Five bits: twelve values per word, the top four bits unused.
    let values: Vec<u32> = (0..13).collect();
    let words = pack_longs(&values, 5);
    assert_eq!(words.len(), 2);
    for j in 0..12 {
        assert_eq!(((words[0] as u64) >> (5 * j)) & 31, j as u64);
    }
    assert_eq!(words[1], 12);
}

#[test]
fn longs_use_the_sign_bit() {
    let values = vec![0xffff_ffffu32, 0xffff_ffff];
    assert_eq!(pack_longs(&values, 32), vec![-1]);
}

#[test]
fn bytes_are_copied() {
    assert_eq!(pack_to_bytes(&[1, 2, 255]), vec![1, 2, 255]);
}

#[test]
fn block_data_packs_wide_fields() {
    let data = vec![0xffff_ffffu32, 1, 0x8000_0000];
    let bytes = pack_block_data(&data, 40);
    assert_eq!(bytes.len(), 15);
    for (i, &v) in data.iter().enumerate() {
        let mut got: u64 = 0;
        for b in 0..40 {
            let d = i * 40 + b;
            if (bytes[d / 8] >> (d % 8)) & 1 == 1 {
                got |= 1 << b;
            }
        }
        assert_eq!(got, v as u64);
    }
}

#[test]
fn block_data_bits_past_the_last_value_are_zero() {
    let data: Vec<u32> = vec![0x7ff, 0x5a5, 0x7ff];
    let bits = 11;
    let bytes = pack_block_data(&data, bits);
    assert_eq!(bytes.len(), 5);
    for j in data.len() * bits..8 * bytes.len() {
        assert_eq!((bytes[j / 8] >> (j % 8)) & 1, 0);
    }
    for (i, &v) in data.iter().enumerate() {
        for k in 0..bits {
            let j = i * bits + k;
            assert_eq!(((bytes[j / 8] >> (j % 8)) & 1) as u32, (v >> k) & 1);
        }
    }
}
