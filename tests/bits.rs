use chunk_store::bits::BitArray;
use chunk_store::pos::Pos;
use chunk_store::section::Section;

#[test]
fn values_straddling_words() {
    let mut a = BitArray::new(5);
    // index 12 takes bits 60..65: four bits in word 0, one in word 1
    a.set(11, 31);
    a.set(12, 0b10110);
    a.set(13, 7);
    assert_eq!(a.get(11), 31);
    assert_eq!(a.get(12), 0b10110);
    assert_eq!(a.get(13), 7);
    assert_eq!(a.words()[0] >> 60, 0b0110);
    assert_eq!(a.words()[1] & 1, 1);
    a.set(12, 0);
    assert_eq!(a.get(11), 31);
    assert_eq!(a.get(13), 7);
    assert_eq!(a.words()[0] >> 60, 0);
}

#[test]
fn resize_keeps_values() {
    let mut a = BitArray::new(4);
    for i in 0..4096usize {
        a.set(i, (i % 16) as u64);
    }
    a.resize(7);
    assert_eq!(a.width(), 7);
    assert_eq!(a.words().len(), 64 * 7);
    for i in 0..4096usize {
        assert_eq!(a.get(i), (i % 16) as u64);
    }
}

#[test]
fn full_width_words() {
    let mut a = BitArray::new(64);
    a.set(5, u64::MAX);
    assert_eq!(a.get(5), u64::MAX);
    assert_eq!(a.get(4), 0);
    assert_eq!(a.get(6), 0);
    assert_eq!(BitArray::max_value(64), u64::MAX);
    assert_eq!(BitArray::max_value(5), 31);
}

#[test]
fn words_of_the_wrong_length() {
    assert!(BitArray::from_words(4, vec![0; 255]).is_err());
    let a = BitArray::from_words(4, vec![0x21; 256]).unwrap();
    assert_eq!(a.get(0), 1);
    assert_eq!(a.get(1), 2);
    assert_eq!(a.get(2), 0);
}

#[test]
fn every_cell_distinct() {
    let mut s = Section::new();
    for y in 0..16 {
        for z in 0..16 {
            for x in 0..16 {
                s.set_block(Pos::new(x, y, z), (y * 256 + z * 16 + x + 1) as u32);
            }
        }
    }
    assert_eq!(s.bits_per_block(), 13);
    assert_eq!(s.palette().len(), 4097);
    assert_eq!(s.block_amounts()[0], 0);
    assert_eq!(s.non_air_blocks(), 4096);
    assert_eq!(s.get_block(Pos::new(15, 15, 15)), 4096);
    assert_eq!(s.get_block(Pos::new(0, 0, 0)), 1);
}
