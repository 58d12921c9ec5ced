use chunk_store::chunk::ChunkKind;
use chunk_store::multi::MultiChunk;
use chunk_store::pos::{Pos, PosError};
use chunk_store::version::{generate_versions, parse_table, BlockVersion, TypeConverter};

fn table() -> String {
    let mut csv = String::new();
    for i in 0..15744u32 {
        if i == 15743 {
            csv.push_str("15743,11268,11252,8595,4080,4080,4080,4080,0\n");
        } else if i == 1 {
            csv.push_str("1,1,1,1,16,16,16,16,16\n");
        } else {
            csv.push_str(&format!("{},0,0,0,0,0,0,0,0\n", i));
        }
    }
    csv
}

#[test]
fn test_convert() {
    let conv = TypeConverter::new(&table()).unwrap();

    assert_eq!(conv.to_old(15743, BlockVersion::V1_16), 15743);
    assert_eq!(conv.to_old(15743, BlockVersion::V1_15), 11268);
    assert_eq!(conv.to_old(15743, BlockVersion::V1_14), 11252);
    assert_eq!(conv.to_old(15743, BlockVersion::V1_13), 8595);
    assert_eq!(conv.to_old(15743, BlockVersion::V1_12), 4080);
    assert_eq!(conv.to_old(15743, BlockVersion::V1_11), 4080);
    assert_eq!(conv.to_old(15743, BlockVersion::V1_10), 4080);
    assert_eq!(conv.to_old(15743, BlockVersion::V1_9), 4080);
    assert_eq!(conv.to_old(15743, BlockVersion::V1_8), 0);
}

#[test]
fn convert_back_to_latest() {
    let conv = TypeConverter::new(&table()).unwrap();
    assert_eq!(conv.to_latest(11268, BlockVersion::V1_15), 15743);
    assert_eq!(conv.to_latest(16, BlockVersion::V1_8), 1);
    assert_eq!(conv.to_latest(0, BlockVersion::V1_8), 15743);
    assert_eq!(conv.to_latest(99999, BlockVersion::V1_12), 0);
    assert_eq!(conv.to_latest(77, BlockVersion::V1_16), 77);
    assert_eq!(conv.to_old(20000, BlockVersion::V1_12), 0);
}

#[test]
fn versions_oldest_first() {
    let versions = generate_versions(&table()).unwrap();
    assert_eq!(versions.len(), 8);
    assert_eq!(versions[0].ver(), BlockVersion::V1_8);
    assert_eq!(versions[7].ver(), BlockVersion::V1_15);
}

#[test]
fn malformed_tables() {
    assert!(generate_versions("0,0\n1,2\n").is_none());
    assert!(generate_versions("0,0,0,0,0,0,0,0,0\n1,1\n").is_none());
    assert!(generate_versions("0,0,0,0,0,0,0,0,x\n").is_none());
    assert!(generate_versions("0,0,0,0,0,0,0,0,\n").is_none());
    assert!(parse_table(b"1,99999999999\n").is_none());
    assert_eq!(parse_table(b"1,2\r\n3,4\n\n"), Some((vec![1, 2, 3, 4], 2)));
    assert_eq!(parse_table(b"7"), Some((vec![7], 1)));
}

#[test]
fn multi_chunk_keeps_each_version() {
    let conv = TypeConverter::new(&table()).unwrap();
    let mut c = MultiChunk::new();
    assert_eq!(c.primary(), BlockVersion::V1_8);
    c.set_block(Pos::new(1, 2, 3), 1, &conv).unwrap();
    assert_eq!(c.get_block(Pos::new(1, 2, 3)), Ok(16));
    let bad = Pos::new(1, 256, 3);
    assert_eq!(c.set_block(bad, 1, &conv), Err(PosError::OutOfBounds(bad)));
    assert_eq!(c.get_block(bad), Err(PosError::OutOfBounds(bad)));
    let pb = c.to_proto(BlockVersion::V1_8).unwrap();
    assert_eq!(pb.sections[&0].palette, vec![0, 16]);
    assert!(c.to_proto(BlockVersion::V1_16).is_none());
    let _ = ChunkKind::Fixed;
}
