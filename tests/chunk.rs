use chunk_store::chunk::{Chunk, ChunkKind};
use chunk_store::pos::{Pos, PosError};

#[test]
fn set_and_get_across_layers() {
    let mut c = Chunk::new(ChunkKind::Paletted);
    assert_eq!(c.get_block(Pos::new(3, 100, 3)), Ok(0));
    c.set_block(Pos::new(3, 100, 3), 9).unwrap();
    assert_eq!(c.get_block(Pos::new(3, 100, 3)), Ok(9));
    assert_eq!(c.get_block(Pos::new(3, 101, 3)), Ok(0));
    assert_eq!(c.get_block(Pos::new(3, 4, 3)), Ok(0));
    assert!(matches!(c.kind(), ChunkKind::Paletted));
}

#[test]
fn set_outside_the_column_fails() {
    let mut c = Chunk::new(ChunkKind::Paletted);
    let p = Pos::new(0, 20 * 16, 0);
    assert_eq!(c.set_block(p, 1), Err(PosError::OutOfBounds(p)));
    assert!(c.to_latest_proto().sections.is_empty());
    let q = Pos::new(0, -1, 0);
    assert_eq!(c.set_block(q, 1), Err(PosError::OutOfBounds(q)));
    let r = Pos::new(16, 5, 0);
    assert_eq!(c.set_block(r, 1), Err(PosError::OutOfBounds(r)));
    assert_eq!(c.get_block(p), Err(PosError::OutOfBounds(p)));
    assert!(c.to_latest_proto().sections.is_empty());
}

#[test]
fn fill_spanning_layers() {
    let mut c = Chunk::new(ChunkKind::Paletted);
    c.fill(Pos::new(1, 10, 2), Pos::new(3, 40, 4), 6).unwrap();
    assert_eq!(c.get_block(Pos::new(1, 10, 2)), Ok(6));
    assert_eq!(c.get_block(Pos::new(3, 40, 4)), Ok(6));
    assert_eq!(c.get_block(Pos::new(2, 25, 3)), Ok(6));
    assert_eq!(c.get_block(Pos::new(2, 9, 3)), Ok(0));
    assert_eq!(c.get_block(Pos::new(2, 41, 3)), Ok(0));
    assert_eq!(c.get_block(Pos::new(4, 25, 3)), Ok(0));
    let pb = c.to_latest_proto();
    let mut layers: Vec<i32> = pb.sections.keys().cloned().collect();
    layers.sort();
    assert_eq!(layers, vec![0, 1, 2]);
    assert_eq!(pb.sections[&1].non_air_blocks, 3 * 3 * 16);
}

#[test]
fn fill_errors() {
    let mut c = Chunk::new(ChunkKind::Paletted);
    let lo = Pos::new(0, -3, 0);
    let hi = Pos::new(0, 300, 0);
    assert_eq!(c.fill(lo, Pos::new(1, 1, 1), 1), Err(PosError::OutOfBounds(lo)));
    assert_eq!(c.fill(Pos::new(1, 1, 1), hi, 1), Err(PosError::OutOfBounds(hi)));
    let max = Pos::new(1, 5, 1);
    assert_eq!(c.fill(Pos::new(0, 40, 0), max, 1), Err(PosError::OutOfBounds(max)));
    assert!(c.to_latest_proto().sections.is_empty());
}

#[test]
fn old_proto_remaps_every_palette() {
    let mut c = Chunk::new(ChunkKind::Paletted);
    c.set_block(Pos::new(0, 0, 0), 2).unwrap();
    c.set_block(Pos::new(0, 200, 0), 3).unwrap();
    let pb = c.to_old_proto(|v: u32| v + 100);
    assert_eq!(pb.sections[&0].palette, vec![100, 102]);
    assert_eq!(pb.sections[&12].palette, vec![100, 103]);
    assert_eq!(pb.sections.len(), 2);
}

#[test]
fn chunk_y_rounds_down() {
    assert_eq!(Pos::new(0, -1, 0).chunk_y(), -1);
    assert_eq!(Pos::new(0, -16, 0).chunk_y(), -1);
    assert_eq!(Pos::new(0, -17, 0).chunk_y(), -2);
    assert_eq!(Pos::new(0, 17, 0).chunk_y(), 1);
    assert_eq!(Pos::new(0, -1, 0).chunk_rel_y(), 15);
    assert_eq!(Pos::new(0, 33, 0).chunk_rel_y(), 1);
}

#[test]
fn taller_columns() {
    let mut c = Chunk::with_layers(ChunkKind::Paletted, 24);
    assert_eq!(c.layer_count(), 24);
    c.set_block(Pos::new(0, 20 * 16, 0), 3).unwrap();
    assert_eq!(c.get_block(Pos::new(0, 20 * 16, 0)), Ok(3));
    let top = Pos::new(0, 24 * 16, 0);
    assert_eq!(c.set_block(top, 3), Err(PosError::OutOfBounds(top)));
    assert_eq!(Chunk::new(ChunkKind::Fixed).layer_count(), 16);
}
