use chunk_store::pos::Pos;
use chunk_store::proto::{ProtoSection, WireError};
use chunk_store::section::Section;

fn each_pos() -> Vec<Pos> {
    let mut out = vec![];
    for y in 0..16 {
        for z in 0..16 {
            for x in 0..16 {
                out.push(Pos::new(x, y, z));
            }
        }
    }
    out
}

#[test]
fn new_section_is_air() {
    let s = Section::new();
    assert_eq!(s.get_block(Pos::new(0, 0, 0)), 0);
    assert_eq!(s.palette(), &vec![0]);
    assert_eq!(s.bits_per_block(), 4);
    assert_eq!(s.block_amounts(), &vec![4096]);
    assert_eq!(s.non_air_blocks(), 0);
}

#[test]
fn set_then_get_one_block() {
    let mut s = Section::new();
    s.set_block(Pos::new(1, 2, 3), 5);
    assert_eq!(s.get_block(Pos::new(1, 2, 3)), 5);
    for p in each_pos() {
        if p != Pos::new(1, 2, 3) {
            assert_eq!(s.get_block(p), 0);
        }
    }
    assert_eq!(s.palette(), &vec![0, 5]);
    assert_eq!(s.block_amounts(), &vec![4095, 1]);
}

#[test]
fn palette_grows_past_four_bits() {
    let mut s = Section::new();
    for i in 0..16u32 {
        s.set_block(Pos::new(i as i32, 0, 0), 100 - i);
    }
    assert_eq!(s.bits_per_block(), 5);
    assert_eq!(s.palette().len(), 17);
    for i in 0..16u32 {
        assert_eq!(s.get_block(Pos::new(i as i32, 0, 0)), 100 - i);
    }
    let mut sorted = s.palette().clone();
    sorted.sort();
    sorted.dedup();
    assert_eq!(&sorted, s.palette());
    assert_eq!(s.block_amounts().iter().sum::<u32>(), 4096);
}

#[test]
fn removing_the_last_block_prunes_the_palette() {
    let mut s = Section::new();
    let p = Pos::new(4, 5, 6);
    s.set_block(p, 7);
    s.set_block(p, 0);
    assert_eq!(s.palette(), &vec![0]);
    assert_eq!(s.bits_per_block(), 4);
    assert_eq!(s.get_block(p), 0);
}

#[test]
fn width_never_shrinks() {
    let mut s = Section::new();
    for i in 0..20u32 {
        s.set_block(Pos::new((i % 16) as i32, (i / 16) as i32, 0), i + 1);
    }
    assert_eq!(s.bits_per_block(), 5);
    for i in 0..20u32 {
        s.set_block(Pos::new((i % 16) as i32, (i / 16) as i32, 0), 0);
    }
    assert_eq!(s.palette(), &vec![0]);
    assert_eq!(s.bits_per_block(), 5);
}

#[test]
fn fill_whole_section() {
    let mut s = Section::new();
    s.fill(Pos::new(0, 0, 0), Pos::new(15, 15, 15), 3);
    for p in each_pos() {
        assert_eq!(s.get_block(p), 3);
    }
    assert_eq!(s.palette(), &vec![0, 3]);
    assert_eq!(s.block_amounts(), &vec![0, 4096]);
    s.fill(Pos::new(0, 0, 0), Pos::new(15, 15, 15), 0);
    assert_eq!(s.palette(), &vec![0]);
    assert_eq!(s.block_amounts(), &vec![4096]);
}

#[test]
fn fill_box_matches_cell_by_cell() {
    let mut a = Section::new();
    let mut b = Section::new();
    for (i, p) in each_pos().into_iter().enumerate() {
        if i % 7 == 0 {
            a.set_block(p, (i % 5) as u32);
            b.set_block(p, (i % 5) as u32);
        }
    }
    a.fill(Pos::new(2, 3, 4), Pos::new(9, 8, 15), 42);
    for p in each_pos() {
        if (2..=9).contains(&p.x) && (3..=8).contains(&p.y) && (4..=15).contains(&p.z) {
            b.set_block(p, 42);
        }
    }
    for p in each_pos() {
        assert_eq!(a.get_block(p), b.get_block(p));
    }
    assert_eq!(a.palette(), b.palette());
    assert_eq!(a.block_amounts(), b.block_amounts());
}

#[test]
fn fill_prunes_entries_it_covers() {
    let mut s = Section::new();
    s.set_block(Pos::new(1, 1, 1), 8);
    s.set_block(Pos::new(2, 1, 1), 9);
    s.set_block(Pos::new(14, 14, 14), 10);
    s.fill(Pos::new(0, 0, 0), Pos::new(3, 3, 3), 2);
    assert_eq!(s.palette(), &vec![0, 2, 10]);
    assert_eq!(s.block_amounts(), &vec![4096 - 64 - 1, 64, 1]);
    assert_eq!(s.non_air_blocks(), 65);
}

#[test]
fn duplicate_is_independent() {
    let mut s = Section::new();
    s.set_block(Pos::new(3, 3, 3), 11);
    let d = s.duplicate();
    s.set_block(Pos::new(3, 3, 3), 12);
    assert_eq!(d.get_block(Pos::new(3, 3, 3)), 11);
    assert_eq!(s.get_block(Pos::new(3, 3, 3)), 12);
}

#[test]
fn wire_round_trip() {
    let mut s = Section::new();
    for i in 0..40u32 {
        s.set_block(Pos::new((i % 16) as i32, (i / 16) as i32, 5), i * 3 + 1);
    }
    let pb = s.to_latest_proto();
    assert_eq!(pb.bits_per_block, 6);
    assert_eq!(pb.data.len(), 64 * 6);
    assert_eq!(pb.non_air_blocks, 40);
    let back = Section::from_latest_proto(pb).unwrap();
    for i in 0..40u32 {
        assert_eq!(back.get_block(Pos::new((i % 16) as i32, (i / 16) as i32, 5)), i * 3 + 1);
    }
    assert_eq!(back.block_amounts(), s.block_amounts());
}

#[test]
fn wire_with_remapped_ids() {
    let mut s = Section::new();
    s.set_block(Pos::new(0, 0, 0), 5);
    let pb = s.to_old_proto(&|v: u32| v * 10);
    assert_eq!(pb.palette, vec![0, 50]);
    let back = Section::from_old_proto(pb, &|v: u32| v / 10).unwrap();
    assert_eq!(back.get_block(Pos::new(0, 0, 0)), 5);
}

#[test]
fn packed_words_are_bit_exact() {
    let mut s = Section::new();
    s.set_block(Pos::new(1, 0, 0), 9);
    s.set_block(Pos::new(15, 0, 0), 9);
    let pb = s.to_latest_proto();
    assert_eq!(pb.data[0], 0x1000_0000_0000_0010);
    assert!(pb.data[1..].iter().all(|&w| w == 0));
}

fn proto(palette: Vec<u32>, bits: u32, data: Vec<u64>) -> ProtoSection {
    ProtoSection { palette, bits_per_block: bits, non_air_blocks: 0, data }
}

#[test]
fn malformed_wire_sections() {
    let e = Section::from_latest_proto(proto(vec![0], 3, vec![0; 192])).unwrap_err();
    assert_eq!(e, WireError::BitsPerBlock(3));
    let e = Section::from_latest_proto(proto(vec![0], 65, vec![])).unwrap_err();
    assert_eq!(e, WireError::BitsPerBlock(65));
    let e = Section::from_latest_proto(proto((0..257).collect(), 9, vec![0; 576])).unwrap_err();
    assert_eq!(e, WireError::PaletteTooLong(257));
    let e = Section::from_latest_proto(proto((0..17).collect(), 4, vec![0; 256])).unwrap_err();
    assert_eq!(e, WireError::PaletteTooLong(17));
    let e = Section::from_latest_proto(proto(vec![1, 2], 4, vec![0; 256])).unwrap_err();
    assert_eq!(e, WireError::MissingAir);
    let e = Section::from_latest_proto(proto(vec![], 4, vec![0; 256])).unwrap_err();
    assert_eq!(e, WireError::MissingAir);
    let e = Section::from_latest_proto(proto(vec![0, 1], 4, vec![0; 255])).unwrap_err();
    assert_eq!(e, WireError::DataLength(255));
    let e = Section::from_latest_proto(proto(vec![0, 5, 5], 4, vec![0; 256])).unwrap_err();
    assert_eq!(e, WireError::Unsorted);
    let e = Section::from_latest_proto(proto(vec![0, 5], 4, vec![2; 256])).unwrap_err();
    assert_eq!(e, WireError::IndexOutOfPalette);
    let ok = Section::from_latest_proto(proto(vec![0, 5], 64, vec![1; 4096])).unwrap();
    assert_eq!(ok.get_block(Pos::new(7, 7, 7)), 5);
}
