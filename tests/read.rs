use chunk_store::read::{
    zig, EnumRead, EnumReader, Header, InvalidReadError, MessageReader, ReadError, StructRead,
    StructReader, ValidReadError,
};

#[derive(Debug, Clone, PartialEq)]
struct EmptyStruct {}

impl StructRead for EmptyStruct {
    fn read_struct(_m: StructReader) -> Result<Self, ReadError> {
        Ok(EmptyStruct {})
    }
}

#[derive(Debug, Clone, PartialEq)]
struct IntStruct {
    a: i32,
    b: u8,
}

impl StructRead for IntStruct {
    fn read_struct(mut m: StructReader) -> Result<Self, ReadError> {
        Ok(IntStruct { a: m.read(0)?, b: m.read(1)? })
    }
}

#[derive(Debug, Clone, PartialEq)]
struct RemovedFieldStruct {
    a: u8,
    b: u8,
}

impl StructRead for RemovedFieldStruct {
    fn read_struct(mut m: StructReader) -> Result<Self, ReadError> {
        Ok(RemovedFieldStruct { a: m.read(0)?, b: m.read(2)? })
    }
}

#[derive(Debug, Clone, PartialEq)]
enum SampleEnum {
    A,
    B,
    C,
    D,
}

impl EnumRead for SampleEnum {
    fn read_enum(mut m: EnumReader) -> Result<Self, ReadError> {
        Ok(match m.variant() {
            0 => Self::A,
            1 => Self::B,
            2 => Self::C,
            3 => Self::D,
            _ => return Err(m.invalid_variant()),
        })
    }
}

#[derive(Debug, Clone, PartialEq)]
enum DataEnum {
    A,
    B(i8),
    C(u8, u8),
}

impl EnumRead for DataEnum {
    fn read_enum(mut m: EnumReader) -> Result<Self, ReadError> {
        Ok(match m.variant() {
            0 => Self::A,
            1 => Self::B(m.read(0)?),
            2 => Self::C(m.read(0)?, m.read(1)?),
            _ => return Err(m.invalid_variant()),
        })
    }
}

#[test]
fn missing_fields() {
    let msg = [
        // A struct with no fields
        0b100 | 0 << 3,
        // A struct with 1 field (a), set to some valid number
        0b100 | 1 << 3,
        0b001 | zig(-2_i8) << 3,
        // A struct with 1 field (a), set to some invalid field
        0b100 | 1 << 3,
        0b000, // none
        // A struct with 1 field (a), set to some invalid field
        0b100 | 1 << 3,
        0b110, // an empty byte array
        // A struct with 2 fields, with 1 set to some invalid field
        0b100 | 2 << 3,
        0b000,          // none
        0b001 | 3 << 3, // an int
        // A struct with 2 fields (both valid), but being read by a struct with 3 fields
        0b100 | 2 << 3,
        0b001 | 2 << 3, // an int
        0b001 | 3 << 3, // an int
        // A struct with 2 fields (both valid), that will be read by a struct expecting 0 fields
        // (this makes sure we advance the buffer past all the fields).
        0b100 | 2 << 3,
        0b001 | 2 << 3, // an int
        0b001 | 3 << 3, // an int
    ];
    let mut m = MessageReader::new(&msg);
    assert_eq!(m.read_struct::<IntStruct>().unwrap(), IntStruct { a: 0, b: 0 });
    assert_eq!(m.read_struct::<IntStruct>().unwrap(), IntStruct { a: -2, b: 0 });
    assert_eq!(m.read_struct::<IntStruct>().unwrap(), IntStruct { a: 0, b: 0 });
    assert_eq!(m.read_struct::<IntStruct>().unwrap(), IntStruct { a: 0, b: 0 });
    assert_eq!(m.read_struct::<IntStruct>().unwrap(), IntStruct { a: 0, b: 3 });
    assert_eq!(m.read_struct::<RemovedFieldStruct>().unwrap(), RemovedFieldStruct { a: 2, b: 0 });
    assert_eq!(m.read_struct::<EmptyStruct>().unwrap(), EmptyStruct {});
    let err = m.read_struct::<IntStruct>().unwrap_err();
    assert!(matches!(err, ReadError::Invalid(InvalidReadError::EOF)), "unexpected error {:?}", err);
}

#[test]
fn enums() {
    let msg = [
        // An enum with no data
        0b101 | 0 << 3,
        0b100 | 0 << 3,
        // An enum storing an int
        0b101 | 1 << 3,
        0b100 | 1 << 3,
        0b001 | zig(-2_i8) << 3,
    ];
    let mut m = MessageReader::new(&msg);
    assert_eq!(m.read_enum::<DataEnum>().unwrap(), DataEnum::A);
    assert_eq!(m.read_enum::<DataEnum>().unwrap(), DataEnum::B(-2));
}

#[test]
fn varints() {
    let mut m = MessageReader::new(&[
        0b001 | 0 << 3,  // 0
        0b001 | 1 << 3,  // 1
        0b001 | 15 << 3, // 15
        0b001 | 16 << 3, // 16
        1,               // ..
        0b001 | 31 << 3, // 255
        15,              // ..
    ]);
    assert_eq!(m.read_u8().unwrap(), 0);
    assert_eq!(m.read_u8().unwrap(), 1);
    assert_eq!(m.read_u8().unwrap(), 15);
    assert_eq!(m.read_u8().unwrap(), 16);
    assert_eq!(m.read_u8().unwrap(), 255);
    assert!(matches!(m.read_u32().unwrap_err(), ReadError::Invalid(InvalidReadError::EOF)));
}

#[test]
fn fields_of_each_kind_in_a_row() {
    let msg = [
        0b000,
        0b001 | 12 << 3,
        0b100 | 0 << 3,
        0b100 | 2 << 3,
        0b001 | zig(-3_i8) << 3,
        0b001 | 10 << 3,
        0b101 | 1 << 3,
        0b100,
        0b110 | 5 << 3,
        b'H',
        b'e',
        b'l',
        b'l',
        b'o',
    ];
    let mut m = MessageReader::new(&msg);
    assert_eq!(m.index(), 0);
    assert_eq!(m.read_none().unwrap(), ());
    assert_eq!(m.index(), 1);
    assert_eq!(m.read_u8().unwrap(), 12);
    assert_eq!(m.index(), 2);
    assert_eq!(m.read_struct::<EmptyStruct>().unwrap(), EmptyStruct {});
    assert_eq!(m.index(), 3);
    assert_eq!(m.read_struct::<IntStruct>().unwrap(), IntStruct { a: -3, b: 10 });
    assert_eq!(m.index(), 6);
    assert_eq!(m.read_enum::<SampleEnum>().unwrap(), SampleEnum::B);
    assert_eq!(m.index(), 8);
    assert_eq!(m.read_bytes().unwrap(), b"Hello");
    assert_eq!(m.index(), 14);
    assert!(!m.can_read());
    assert!(matches!(m.read_none().unwrap_err(), ReadError::Invalid(InvalidReadError::EOF)));
}

#[test]
fn skips_floats_and_doubles() {
    let msg = [0b010, 0, 0, 0, 0, 0b011, 0, 0, 0, 0, 0, 0, 0, 0, 0b001 | 7 << 3];
    let mut m = MessageReader::new(&msg);
    m.skip_fields(2).unwrap();
    assert_eq!(m.index(), 14);
    assert_eq!(m.read_u64().unwrap(), 7);
}

#[test]
fn wrong_header_is_a_valid_error() {
    let mut m = MessageReader::new(&[0b000, 0b001 | 4 << 3]);
    let err = m.read_u64().unwrap_err();
    assert!(matches!(
        err,
        ReadError::Valid(ValidReadError::WrongMessage(Header::Null, Header::VarInt))
    ));
    assert_eq!(m.index(), 1);
    assert_eq!(m.read_u64().unwrap(), 4);
}

#[test]
fn wrong_header_for_struct_skips_the_field() {
    let mut m = MessageReader::new(&[0b110 | 2 << 3, 1, 2, 0b001 | 9 << 3]);
    let err = m.read_struct::<EmptyStruct>().unwrap_err();
    assert!(matches!(
        err,
        ReadError::Valid(ValidReadError::WrongMessage(Header::Bytes, Header::Struct))
    ));
    assert_eq!(m.index(), 3);
    assert_eq!(m.read_u32().unwrap(), 9);
}

#[test]
fn unknown_variant_and_header() {
    let mut m = MessageReader::new(&[0b101 | 9 << 3, 0b100, 0b111]);
    let err = m.read_enum::<SampleEnum>().unwrap_err();
    assert!(matches!(err, ReadError::Valid(ValidReadError::InvalidVariant(9))));
    let err = m.read_none().unwrap_err();
    assert!(matches!(err, ReadError::Invalid(InvalidReadError::InvalidHeader(7))));
}

#[test]
fn numbers_too_large_or_too_long() {
    let mut m = MessageReader::new(&[0b001 | 16 << 3, 0x10, 0b001 | 3 << 3]);
    assert!(matches!(m.read_u8().unwrap_err(), ReadError::Invalid(InvalidReadError::VarIntTooLong)));
    let mut m = MessageReader::new(&[0b001 | 2 << 3]);
    assert!(matches!(m.read_bool().unwrap_err(), ReadError::Invalid(InvalidReadError::VarIntTooLong)));
    let mut m = MessageReader::new(&[0b001 | 1 << 3]);
    assert_eq!(m.read_bool().unwrap(), true);
    let mut long = vec![0b001 | 16 << 3];
    long.extend([0x80u8; 9]);
    let mut m = MessageReader::new(&long);
    assert!(matches!(m.read_u64().unwrap_err(), ReadError::Invalid(InvalidReadError::VarIntTooLong)));
}

#[test]
fn byte_array_past_the_end() {
    let mut m = MessageReader::new(&[0b110 | 4 << 3, 1, 2]);
    assert!(matches!(m.read_bytes().unwrap_err(), ReadError::Invalid(InvalidReadError::InvalidBufLength)));
}

#[test]
fn zig_zag_numbers() {
    assert_eq!(zig(0), 0);
    assert_eq!(zig(-1), 1);
    assert_eq!(zig(1), 2);
    assert_eq!(zig(-3), 5);
    assert_eq!(zig(127), 254);
    assert_eq!(zig(-128), 255);
    let mut m = MessageReader::new(&[0b001 | 5 << 3, 0b001 | 16 << 3, 0x0f]);
    assert_eq!(m.read_i32().unwrap(), -3);
    assert_eq!(m.read_i16().unwrap(), 120);
}

#[test]
fn generic_read_matches_typed_read() {
    let msg = [0b001 | 16 << 3, 2, 0b001 | 3 << 3];
    let mut a = MessageReader::new(&msg);
    let mut b = MessageReader::new(&msg);
    assert_eq!(a.read::<u64>().unwrap(), b.read_u64().unwrap());
    assert_eq!(a.index(), b.index());
    assert_eq!(a.read::<i8>().unwrap(), -2);
}
