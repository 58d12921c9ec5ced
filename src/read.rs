//! Reading fields of the tagged message format. Every field starts with a
//! byte whose low 3 bits give its [`Header`] and whose high 5 bits carry the
//! start of its first number. A struct is a count of fields followed by the
//! fields; an enum is a variant number followed by one struct.
use vstd::prelude::*;
use vstd::slice::slice_subrange;

verus! {

/// The kind of a field, from the low 3 bits of its first byte.
#[derive(Clone, Copy, Debug, PartialEq, Eq, Structural)]
pub enum Header {
    Null,
    VarInt,
    Float,
    Double,
    Struct,
    Enum,
    Bytes,
}

/// The header with the given id, if there is one.
pub open spec fn header_of(id: u8) -> Option<Header> {
    if id == 0 {
        Some(Header::Null)
    } else if id == 1 {
        Some(Header::VarInt)
    } else if id == 2 {
        Some(Header::Float)
    } else if id == 3 {
        Some(Header::Double)
    } else if id == 4 {
        Some(Header::Struct)
    } else if id == 5 {
        Some(Header::Enum)
    } else if id == 6 {
        Some(Header::Bytes)
    } else {
        None
    }
}

impl Header {
    /// The header with the given id, if there is one.
    pub fn from_id(id: u8) -> (r: Option<Header>)
        ensures
            r == header_of(id),
    {
        match id {
            0 => Some(Header::Null),
            1 => Some(Header::VarInt),
            2 => Some(Header::Float),
            3 => Some(Header::Double),
            4 => Some(Header::Struct),
            5 => Some(Header::Enum),
            6 => Some(Header::Bytes),
            _ => None,
        }
    }
}

/// The zig-zag form of a signed number: `0, -1, 1, -2, ...` become
/// `0, 1, 2, 3, ...`.
pub open spec fn zig_spec(v: int) -> int {
    if v >= 0 {
        2 * v
    } else {
        -2 * v - 1
    }
}

/// The signed number of a zig-zag form.
pub open spec fn zag_spec(v: int) -> int {
    if v % 2 == 0 {
        v / 2
    } else {
        -(v + 1) / 2
    }
}

/// Encodes an `i8` in zig-zag form.
pub fn zig(v: i8) -> (r: u8)
    ensures
        r as int == zig_spec(v as int),
{
    if v >= 0 {
        (v as u8) * 2
    } else {
        (-(v as i16) * 2 - 1) as u8
    }
}

/// A field could not be read.
///
/// After a [`Valid`](Self::Valid) error the reader stands after the field
/// and reading can go on; after an [`Invalid`](Self::Invalid) one it cannot.
#[derive(Debug)]
#[non_exhaustive]
pub enum ReadError {
    Valid(ValidReadError),
    Invalid(InvalidReadError),
}

/// An error after which the reader is still in a valid state.
#[derive(Debug)]
#[non_exhaustive]
pub enum ValidReadError {
    /// A string was not valid UTF-8.
    InvalidUtf8(std::string::FromUtf8Error),
    /// An enum variant that the reader does not know, likely from a newer
    /// writer.
    InvalidVariant(u64),
    /// The field had another kind than the one asked for: the header found,
    /// then the one expected.
    WrongMessage(Header, Header),
}

/// An error after which the reader cannot go on.
#[derive(Clone, Copy, Debug, PartialEq, Eq, Structural)]
#[non_exhaustive]
pub enum InvalidReadError {
    /// A length prefix runs past the end of the data.
    InvalidBufLength,
    /// A number has too many bytes, or is too large for what was asked.
    VarIntTooLong,
    /// The 3 bit header is not a known one.
    InvalidHeader(u8),
    /// There are no bytes left.
    EOF,
}

/// `std::string::FromUtf8Error`, which one error variant carries.
#[verifier::external_type_specification]
#[verifier::external_body]
pub struct ExFromUtf8Error(std::string::FromUtf8Error);

/// Reading the continuation bytes of a number from `data` at `idx + i`,
/// with `out` read so far: the number (or the error) and how many bytes,
/// counted from `idx`, were taken.
pub open spec fn varint_rest(data: Seq<u8>, idx: int, i: nat, out: u64) -> (
    Result<u64, InvalidReadError>,
    nat,
)
    decreases 9 - i,
{
    if idx + i >= data.len() || idx + i < 0 {
        (Err(InvalidReadError::EOF), i)
    } else {
        let v = data[idx + i];
        let next = out | (((v & 0x7f) as u64) << ((i * 7 + 4) as u64));
        if v & 0x80 == 0 {
            (Ok(next), i + 1)
        } else if i + 1 >= 9 {
            (Err(InvalidReadError::VarIntTooLong), i + 1)
        } else {
            varint_rest(data, idx, i + 1, next)
        }
    }
}

/// Reading a number whose 5 header bits are `extra` and whose further bytes,
/// if the top one of those bits is set, start at `idx`: the number (or the
/// error) and how many bytes were taken.
pub open spec fn varint_spec(data: Seq<u8>, idx: int, extra: u8) -> (
    Result<u64, InvalidReadError>,
    nat,
) {
    if extra & 0x10 == 0 {
        (Ok(extra as u64), 0)
    } else {
        varint_rest(data, idx, 0, (extra & 0x0f) as u64)
    }
}

/// Reading a header byte at `idx`: the header and its 5 other bits.
pub open spec fn header_spec(data: Seq<u8>, idx: int) -> Result<(Header, u8), InvalidReadError> {
    if idx < 0 || idx >= data.len() {
        Err(InvalidReadError::EOF)
    } else {
        match header_of(data[idx] & 7) {
            Some(h) => Ok((h, data[idx] >> 3)),
            None => Err(InvalidReadError::InvalidHeader(data[idx] & 7)),
        }
    }
}

/// How many bytes of `data` lie at or after `idx`.
pub open spec fn remaining(data: Seq<u8>, idx: int) -> nat {
    if 0 <= idx <= data.len() {
        (data.len() - idx) as nat
    } else {
        0
    }
}

/// Skipping the field at `idx`: how many bytes it takes, or why it cannot be
/// read.
pub open spec fn skip_field_spec(data: Seq<u8>, idx: int) -> Result<nat, InvalidReadError>
    decreases remaining(data, idx), 0nat,
{
    if idx < 0 || idx >= data.len() {
        Err(InvalidReadError::EOF)
    } else {
        match header_of(data[idx] & 7) {
        None => Err(InvalidReadError::InvalidHeader(data[idx] & 7)),
        Some(h) => {
            let extra = data[idx] >> 3;
            let n = varint_spec(data, idx + 1, extra).0;
            let c: nat = varint_spec(data, idx + 1, extra).1;
            let at = idx + 1 + c;
            match h {
                Header::Null => Ok(1),
                Header::Float => if idx + 5 <= data.len() {
                    Ok(5)
                } else {
                    Err(InvalidReadError::EOF)
                },
                Header::Double => if idx + 9 <= data.len() {
                    Ok(9)
                } else {
                    Err(InvalidReadError::EOF)
                },
                _ => match n {
                    Err(e) => Err(e),
                    Ok(n) => match h {
                        Header::Struct => match skip_fields_spec(data, at, n) {
                            Ok(c2) => Ok(1 + c + c2),
                            Err(e) => Err(e),
                        },
                        Header::Enum => match skip_field_spec(data, at) {
                            Ok(c2) => Ok(1 + c + c2),
                            Err(e) => Err(e),
                        },
                        Header::Bytes => if n > data.len() - at {
                            Err(InvalidReadError::InvalidBufLength)
                        } else {
                            Ok((1 + c + n) as nat)
                        },
                        _ => Ok(1 + c),
                    },
                },
            }
        },
        }
    }
}

/// Skipping `n` fields from `idx`: how many bytes they take, or why one of
/// them cannot be read.
pub open spec fn skip_fields_spec(data: Seq<u8>, idx: int, n: u64) -> Result<nat, InvalidReadError>
    decreases remaining(data, idx), n + 1,
{
    if n == 0 {
        Ok(0)
    } else if idx < 0 || idx >= data.len() {
        Err(InvalidReadError::EOF)
    } else {
        match skip_field_spec(data, idx) {
            Err(e) => Err(e),
            Ok(c) => match skip_fields_spec(data, idx + (c as nat), (n - 1) as u64) {
                Ok(c2) => Ok(c + c2),
                Err(e) => Err(e),
            },
        }
    }
}

/// Reading a number field at `idx`: the number (or the error) and how many
/// bytes were taken.
pub open spec fn u64_spec(data: Seq<u8>, idx: int) -> (Result<u64, ReadError>, nat) {
    match header_spec(data, idx) {
        Err(e) => (Err(ReadError::Invalid(e)), 0),
        Ok((h, extra)) => if h != Header::VarInt {
            (Err(ReadError::Valid(ValidReadError::WrongMessage(h, Header::VarInt))), 1)
        } else {
            let r = varint_spec(data, idx + 1, extra);
            (
                match r.0 {
                    Ok(v) => Ok(v),
                    Err(e) => Err(ReadError::Invalid(e)),
                },
                1 + r.1,
            )
        },
    }
}

/// A number field read at `idx`, narrowed to at most `max`.
pub open spec fn unsigned_spec(data: Seq<u8>, idx: int, max: u64) -> Result<u64, ReadError> {
    match u64_spec(data, idx).0 {
        Ok(v) => if v <= max {
            Ok(v)
        } else {
            Err(ReadError::Invalid(InvalidReadError::VarIntTooLong))
        },
        Err(e) => Err(e),
    }
}

/// A number field read at `idx` whose zig-zag form is at most `max`, as the
/// signed number.
pub open spec fn signed_spec(data: Seq<u8>, idx: int, max: u64) -> Result<int, ReadError> {
    match unsigned_spec(data, idx, max) {
        Ok(v) => Ok(zag_spec(v as int)),
        Err(e) => Err(e),
    }
}

/// Whether a read left the reader in a state that it can go on from.
pub open spec fn recoverable<T>(r: Result<T, ReadError>) -> bool {
    r is Ok || r matches Err(ReadError::Valid(_))
}

/// Reading the field count of a struct, whose 5 header bits are `extra`, and
/// skipping its fields, from `at`: how many bytes that takes.
pub open spec fn struct_body_spec(data: Seq<u8>, at: int, extra: u8) -> Result<nat, InvalidReadError> {
    let (n, c) = varint_spec(data, at, extra);
    match n {
        Err(e) => Err(e),
        Ok(n) => match skip_fields_spec(data, at + c, n) {
            Err(e) => Err(e),
            Ok(c2) => Ok(c + c2),
        },
    }
}

/// What a read of a field whose header is not the `expected` one ends with,
/// from `idx`: the field is skipped, and the error names both headers.
pub open spec fn wrong_field_spec(data: Seq<u8>, idx: int, found: Header, expected: Header) -> (
    ReadError,
    nat,
) {
    match skip_field_spec(data, idx) {
        Err(e) => (ReadError::Invalid(e), 0),
        Ok(c) => (ReadError::Valid(ValidReadError::WrongMessage(found, expected)), c),
    }
}

/// The signed number of a zig-zag form.
fn zag(v: u64) -> (r: i64)
    requires
        v <= i64::MAX,
    ensures
        r == zag_spec(v as int),
{
    let n = v as i64;
    if n % 2 == 0 {
        n / 2
    } else {
        -((n - 1) / 2) - 1
    }
}

/// Reads the fields of a message out of a byte slice, from the front.
pub struct MessageReader<'a> {
    data: &'a [u8],
    idx: usize,
}

impl<'a> MessageReader<'a> {
    /// The bytes being read.
    pub closed spec fn data_spec(&self) -> Seq<u8> {
        self.data@
    }

    /// The index of the next byte to read.
    pub closed spec fn index_spec(&self) -> int {
        self.idx as int
    }

    pub open spec fn wf(&self) -> bool {
        self.index_spec() <= self.data_spec().len()
    }

    /// A reader at the start of `data`.
    pub fn new(data: &'a [u8]) -> (r: MessageReader<'a>)
        ensures
            r.wf(),
            r.data_spec() == data@,
            r.index_spec() == 0,
    {
        MessageReader { data, idx: 0 }
    }

    /// The index of the next byte that a read will take.
    pub fn index(&self) -> (r: usize)
        ensures
            r == self.index_spec(),
    {
        self.idx
    }

    /// Whether any bytes are left. Where none are, every read fails with
    /// [`InvalidReadError::EOF`].
    pub fn can_read(&self) -> (r: bool)
        ensures
            r == (self.index_spec() < self.data_spec().len()),
    {
        self.idx < self.data.len()
    }

    /// Reads a value of any type that can be read.
    pub fn read<T: MessageRead>(&mut self) -> (r: Result<T, ReadError>)
        requires
            old(self).wf(),
        ensures
            final(self).wf(),
            final(self).data_spec() == old(self).data_spec(),
            r == T::read_spec(old(self).data_spec(), old(self).index_spec()),
            recoverable(r) ==> final(self).index_spec() == old(self).index_spec() + T::read_len(
                old(self).data_spec(),
                old(self).index_spec(),
            ),
    {
        T::read(self)
    }

    /// Steps back over the byte just read.
    fn undo_read_byte(&mut self)
        requires
            old(self).index_spec() >= 1,
        ensures
            final(self).data_spec() == old(self).data_spec(),
            final(self).index_spec() == old(self).index_spec() - 1,
    {
        self.idx = self.idx - 1;
    }

    fn read_byte(&mut self) -> (r: Result<u8, InvalidReadError>)
        requires
            old(self).wf(),
        ensures
            final(self).wf(),
            final(self).data_spec() == old(self).data_spec(),
            old(self).index_spec() < old(self).data_spec().len() ==> r == Ok::<u8, InvalidReadError>(
                old(self).data_spec()[old(self).index_spec()],
            ) && final(self).index_spec() == old(self).index_spec() + 1,
            old(self).index_spec() >= old(self).data_spec().len() ==> r == Err::<u8, InvalidReadError>(
                InvalidReadError::EOF,
            ) && final(self).index_spec() == old(self).index_spec(),
    {
        if self.idx >= self.data.len() {
            Err(InvalidReadError::EOF)
        } else {
            self.idx += 1;
            Ok(self.data[self.idx - 1])
        }
    }

    /// Reads the header byte of a field: its kind, and its 5 other bits.
    fn read_header(&mut self) -> (r: Result<(Header, u8), InvalidReadError>)
        requires
            old(self).wf(),
        ensures
            final(self).wf(),
            final(self).data_spec() == old(self).data_spec(),
            r == header_spec(old(self).data_spec(), old(self).index_spec()),
            r is Ok ==> final(self).index_spec() == old(self).index_spec() + 1,
    {
        let val = match self.read_byte() {
            Ok(v) => v,
            Err(e) => {
                return Err(e);
            },
        };
        match Header::from_id(val & 0x07) {
            Some(h) => Ok((h, val >> 3)),
            None => Err(InvalidReadError::InvalidHeader(val & 0x07)),
        }
    }

    /// Reads a number whose 5 header bits are `header`; its further bytes
    /// follow when the top one of those bits is set, 7 bits each, the high
    /// bit of each byte telling whether another follows.
    fn read_varint(&mut self, header: u8) -> (r: Result<u64, InvalidReadError>)
        requires
            old(self).wf(),
        ensures
            final(self).wf(),
            final(self).data_spec() == old(self).data_spec(),
            r == varint_spec(old(self).data_spec(), old(self).index_spec(), header).0,
            r is Ok ==> final(self).index_spec() == old(self).index_spec() + varint_spec(
                old(self).data_spec(),
                old(self).index_spec(),
                header,
            ).1,
    {
        if header & 0x10 == 0 {
            return Ok(header as u64);
        }
        let ghost d = self.data@;
        let ghost start = self.idx as int;
        let mut out: u64 = (header as u64) & 0x0f;
        let mut i: u64 = 0;
        assert(((header as u64) & 0x0f) == ((header & 0x0f) as u64)) by (bit_vector);
        loop
            invariant
                self.wf(),
                self.data@ == d,
                d == old(self).data@,
                start == old(self).idx,
                i < 9,
                self.idx == start + i,
                varint_spec(d, start, header) == varint_rest(d, start, i as nat, out),
            decreases 9 - i,
        {
            let v = match self.read_byte() {
                Ok(v) => v,
                Err(e) => {
                    return Err(e);
                },
            };
            let done = v & 0x80 == 0;
            assert(((v as u64) & 0x7f) == ((v & 0x7f) as u64)) by (bit_vector);
            out = out | (((v as u64) & 0x7f) << (i * 7 + 4));
            if done {
                return Ok(out);
            }
            i += 1;
            if i >= 9 {
                return Err(InvalidReadError::VarIntTooLong);
            }
        }
    }

    /// Skips `n` bytes, failing at the end of the data.
    fn skip_fixed(&mut self, n: usize) -> (r: Result<(), InvalidReadError>)
        requires
            old(self).wf(),
        ensures
            final(self).wf(),
            final(self).data_spec() == old(self).data_spec(),
            r is Ok <==> old(self).index_spec() + n <= old(self).data_spec().len(),
            r is Ok ==> final(self).index_spec() == old(self).index_spec() + n,
            r is Err ==> r == Err::<(), InvalidReadError>(InvalidReadError::EOF),
    {
        if self.data.len() - self.idx < n {
            self.idx = self.data.len();
            Err(InvalidReadError::EOF)
        } else {
            self.idx += n;
            Ok(())
        }
    }

    /// Skips `len` bytes; a length past the end of the data is an error.
    fn skip_bytes(&mut self, len: u64) -> (r: Result<(), InvalidReadError>)
        requires
            old(self).wf(),
        ensures
            final(self).wf(),
            final(self).data_spec() == old(self).data_spec(),
            r == if len > old(self).data_spec().len() - old(self).index_spec() {
                Err::<(), InvalidReadError>(InvalidReadError::InvalidBufLength)
            } else {
                Ok(())
            },
            r is Ok ==> final(self).index_spec() == old(self).index_spec() + len,
    {
        if len > (self.data.len() - self.idx) as u64 {
            Err(InvalidReadError::InvalidBufLength)
        } else {
            self.idx += len as usize;
            Ok(())
        }
    }

    /// Takes the next `len` bytes; a length past the end of the data is an
    /// error.
    fn read_buf(&mut self, len: u64) -> (r: Result<&'a [u8], InvalidReadError>)
        requires
            old(self).wf(),
        ensures
            final(self).wf(),
            final(self).data_spec() == old(self).data_spec(),
            len > old(self).data_spec().len() - old(self).index_spec() ==> r == Err::<
                &'a [u8],
                InvalidReadError,
            >(InvalidReadError::InvalidBufLength),
            len <= old(self).data_spec().len() - old(self).index_spec() ==> (r matches Ok(b) && b@
                == old(self).data_spec().subrange(
                old(self).index_spec(),
                old(self).index_spec() + len,
            ) && final(self).index_spec() == old(self).index_spec() + len),
    {
        if len > (self.data.len() - self.idx) as u64 {
            Err(InvalidReadError::InvalidBufLength)
        } else {
            let start = self.idx;
            self.idx += len as usize;
            Ok(slice_subrange(self.data, start, self.idx))
        }
    }

    /// Skips `fields` fields.
    pub fn skip_fields(&mut self, fields: u64) -> (r: Result<(), InvalidReadError>)
        requires
            old(self).wf(),
        ensures
            final(self).wf(),
            final(self).data_spec() == old(self).data_spec(),
            match skip_fields_spec(old(self).data_spec(), old(self).index_spec(), fields) {
                Ok(c) => r is Ok && final(self).index_spec() == old(self).index_spec() + c,
                Err(e) => r == Err::<(), InvalidReadError>(e),
            },
        decreases remaining(old(self).data_spec(), old(self).index_spec()), fields + 1,
    {
        let ghost d = self.data@;
        let ghost i0 = self.idx as int;
        let mut k: u64 = 0;
        while k < fields
            invariant
                self.wf(),
                self.data@ == d,
                d == old(self).data@,
                i0 == old(self).idx,
                i0 <= self.idx,
                k <= fields,
                skip_fields_spec(d, i0, fields) == match skip_fields_spec(
                    d,
                    self.idx as int,
                    (fields - k) as u64,
                ) {
                    Ok(c) => Ok((self.idx - i0 + c) as nat),
                    Err(e) => Err::<nat, InvalidReadError>(e),
                },
            decreases fields - k,
        {
            match self.skip_field() {
                Ok(()) => {},
                Err(e) => {
                    return Err(e);
                },
            }
            k += 1;
        }
        Ok(())
    }

    /// Skips one field, whatever its kind.
    pub fn skip_field(&mut self) -> (r: Result<(), InvalidReadError>)
        requires
            old(self).wf(),
        ensures
            final(self).wf(),
            final(self).data_spec() == old(self).data_spec(),
            match skip_field_spec(old(self).data_spec(), old(self).index_spec()) {
                Ok(c) => r is Ok && final(self).index_spec() == old(self).index_spec() + c,
                Err(e) => r == Err::<(), InvalidReadError>(e),
            },
        decreases remaining(old(self).data_spec(), old(self).index_spec()), 0nat,
    {
        let (header, extra) = match self.read_header() {
            Ok(v) => v,
            Err(e) => {
                return Err(e);
            },
        };
        match header {
            Header::Null => {},
            Header::VarInt => {
                match self.read_varint(extra) {
                    Ok(_) => {},
                    Err(e) => {
                        return Err(e);
                    },
                }
            },
            Header::Float => {
                match self.skip_fixed(4) {
                    Ok(()) => {},
                    Err(e) => {
                        return Err(e);
                    },
                }
            },
            Header::Double => {
                match self.skip_fixed(8) {
                    Ok(()) => {},
                    Err(e) => {
                        return Err(e);
                    },
                }
            },
            Header::Struct => {
                let num_fields = match self.read_varint(extra) {
                    Ok(n) => n,
                    Err(e) => {
                        return Err(e);
                    },
                };
                match self.skip_fields(num_fields) {
                    Ok(()) => {},
                    Err(e) => {
                        return Err(e);
                    },
                }
            },
            Header::Enum => {
                match self.read_varint(extra) {
                    Ok(_) => {},
                    Err(e) => {
                        return Err(e);
                    },
                }
                match self.skip_field() {
                    Ok(()) => {},
                    Err(e) => {
                        return Err(e);
                    },
                }
            },
            Header::Bytes => {
                let len = match self.read_varint(extra) {
                    Ok(n) => n,
                    Err(e) => {
                        return Err(e);
                    },
                };
                match self.skip_bytes(len) {
                    Ok(()) => {},
                    Err(e) => {
                        return Err(e);
                    },
                }
            },
        }
        Ok(())
    }

    /// Reads a `Null` field; a field of another kind is a
    /// [`ValidReadError::WrongMessage`].
    pub fn read_none(&mut self) -> (r: Result<(), ReadError>)
        requires
            old(self).wf(),
        ensures
            final(self).wf(),
            final(self).data_spec() == old(self).data_spec(),
            r == match header_spec(old(self).data_spec(), old(self).index_spec()) {
                Err(e) => Err(ReadError::Invalid(e)),
                Ok((h, _)) => if h == Header::Null {
                    Ok(())
                } else {
                    Err(ReadError::Valid(ValidReadError::WrongMessage(h, Header::Null)))
                },
            },
            recoverable(r) ==> final(self).index_spec() == old(self).index_spec() + 1,
    {
        let (header, _) = match self.read_header() {
            Ok(v) => v,
            Err(e) => {
                return Err(ReadError::Invalid(e));
            },
        };
        if header != Header::Null {
            Err(ReadError::Valid(ValidReadError::WrongMessage(header, Header::Null)))
        } else {
            Ok(())
        }
    }

    /// Reads a number field: its header must be a `VarInt`, else this is a
    /// [`ValidReadError::WrongMessage`].
    pub fn read_u64(&mut self) -> (r: Result<u64, ReadError>)
        requires
            old(self).wf(),
        ensures
            final(self).wf(),
            final(self).data_spec() == old(self).data_spec(),
            r == u64_spec(old(self).data_spec(), old(self).index_spec()).0,
            recoverable(r) ==> final(self).index_spec() == old(self).index_spec() + u64_spec(
                old(self).data_spec(),
                old(self).index_spec(),
            ).1,
    {
        let (header, extra) = match self.read_header() {
            Ok(v) => v,
            Err(e) => {
                return Err(ReadError::Invalid(e));
            },
        };
        if header != Header::VarInt {
            Err(ReadError::Valid(ValidReadError::WrongMessage(header, Header::VarInt)))
        } else {
            match self.read_varint(extra) {
                Ok(v) => Ok(v),
                Err(e) => Err(ReadError::Invalid(e)),
            }
        }
    }

    /// Reads a number field that must be at most `max`; a larger one is a
    /// [`InvalidReadError::VarIntTooLong`].
    fn read_at_most(&mut self, max: u64) -> (r: Result<u64, ReadError>)
        requires
            old(self).wf(),
        ensures
            final(self).wf(),
            final(self).data_spec() == old(self).data_spec(),
            r == unsigned_spec(old(self).data_spec(), old(self).index_spec(), max),
            recoverable(r) ==> final(self).index_spec() == old(self).index_spec() + u64_spec(
                old(self).data_spec(),
                old(self).index_spec(),
            ).1,
    {
        match self.read_u64() {
            Ok(v) => if v <= max {
                Ok(v)
            } else {
                Err(ReadError::Invalid(InvalidReadError::VarIntTooLong))
            },
            Err(e) => Err(e),
        }
    }

    /// Reads a number field that is 0 or 1.
    pub fn read_bool(&mut self) -> (r: Result<bool, ReadError>)
        requires
            old(self).wf(),
        ensures
            final(self).wf(),
            final(self).data_spec() == old(self).data_spec(),
            r == match unsigned_spec(old(self).data_spec(), old(self).index_spec(), 1) {
                Ok(v) => Ok(v == 1),
                Err(e) => Err(e),
            },
            recoverable(r) ==> final(self).index_spec() == old(self).index_spec() + u64_spec(
                old(self).data_spec(),
                old(self).index_spec(),
            ).1,
    {
        match self.read_at_most(1) {
            Ok(v) => Ok(v == 1),
            Err(e) => Err(e),
        }
    }

    /// Reads a number field that fits in a `u8`.
    pub fn read_u8(&mut self) -> (r: Result<u8, ReadError>)
        requires
            old(self).wf(),
        ensures
            final(self).wf(),
            final(self).data_spec() == old(self).data_spec(),
            r == match unsigned_spec(old(self).data_spec(), old(self).index_spec(), 0xff) {
                Ok(v) => Ok(v as u8),
                Err(e) => Err(e),
            },
            recoverable(r) ==> final(self).index_spec() == old(self).index_spec() + u64_spec(
                old(self).data_spec(),
                old(self).index_spec(),
            ).1,
    {
        match self.read_at_most(0xff) {
            Ok(v) => Ok(v as u8),
            Err(e) => Err(e),
        }
    }

    /// Reads a number field that fits in a `u16`.
    pub fn read_u16(&mut self) -> (r: Result<u16, ReadError>)
        requires
            old(self).wf(),
        ensures
            final(self).wf(),
            final(self).data_spec() == old(self).data_spec(),
            r == match unsigned_spec(old(self).data_spec(), old(self).index_spec(), 0xffff) {
                Ok(v) => Ok(v as u16),
                Err(e) => Err(e),
            },
            recoverable(r) ==> final(self).index_spec() == old(self).index_spec() + u64_spec(
                old(self).data_spec(),
                old(self).index_spec(),
            ).1,
    {
        match self.read_at_most(0xffff) {
            Ok(v) => Ok(v as u16),
            Err(e) => Err(e),
        }
    }

    /// Reads a number field that fits in a `u32`.
    pub fn read_u32(&mut self) -> (r: Result<u32, ReadError>)
        requires
            old(self).wf(),
        ensures
            final(self).wf(),
            final(self).data_spec() == old(self).data_spec(),
            r == match unsigned_spec(old(self).data_spec(), old(self).index_spec(), 0xffff_ffff) {
                Ok(v) => Ok(v as u32),
                Err(e) => Err(e),
            },
            recoverable(r) ==> final(self).index_spec() == old(self).index_spec() + u64_spec(
                old(self).data_spec(),
                old(self).index_spec(),
            ).1,
    {
        match self.read_at_most(0xffff_ffff) {
            Ok(v) => Ok(v as u32),
            Err(e) => Err(e),
        }
    }

    /// Reads a zig-zag number field whose form fits in an `i8`.
    pub fn read_i8(&mut self) -> (r: Result<i8, ReadError>)
        requires
            old(self).wf(),
        ensures
            final(self).wf(),
            final(self).data_spec() == old(self).data_spec(),
            r == match signed_spec(old(self).data_spec(), old(self).index_spec(), 0x7f) {
                Ok(v) => Ok(v as i8),
                Err(e) => Err(e),
            },
            recoverable(r) ==> final(self).index_spec() == old(self).index_spec() + u64_spec(
                old(self).data_spec(),
                old(self).index_spec(),
            ).1,
    {
        match self.read_at_most(0x7f) {
            Ok(v) => Ok(zag(v) as i8),
            Err(e) => Err(e),
        }
    }

    /// Reads a zig-zag number field whose form fits in an `i16`.
    pub fn read_i16(&mut self) -> (r: Result<i16, ReadError>)
        requires
            old(self).wf(),
        ensures
            final(self).wf(),
            final(self).data_spec() == old(self).data_spec(),
            r == match signed_spec(old(self).data_spec(), old(self).index_spec(), 0x7fff) {
                Ok(v) => Ok(v as i16),
                Err(e) => Err(e),
            },
            recoverable(r) ==> final(self).index_spec() == old(self).index_spec() + u64_spec(
                old(self).data_spec(),
                old(self).index_spec(),
            ).1,
    {
        match self.read_at_most(0x7fff) {
            Ok(v) => Ok(zag(v) as i16),
            Err(e) => Err(e),
        }
    }

    /// Reads a zig-zag number field whose form fits in an `i32`.
    pub fn read_i32(&mut self) -> (r: Result<i32, ReadError>)
        requires
            old(self).wf(),
        ensures
            final(self).wf(),
            final(self).data_spec() == old(self).data_spec(),
            r == match signed_spec(old(self).data_spec(), old(self).index_spec(), 0x7fff_ffff) {
                Ok(v) => Ok(v as i32),
                Err(e) => Err(e),
            },
            recoverable(r) ==> final(self).index_spec() == old(self).index_spec() + u64_spec(
                old(self).data_spec(),
                old(self).index_spec(),
            ).1,
    {
        match self.read_at_most(0x7fff_ffff) {
            Ok(v) => Ok(zag(v) as i32),
            Err(e) => Err(e),
        }
    }

    /// Reads a zig-zag number field whose form fits in an `i64`.
    pub fn read_i64(&mut self) -> (r: Result<i64, ReadError>)
        requires
            old(self).wf(),
        ensures
            final(self).wf(),
            final(self).data_spec() == old(self).data_spec(),
            r == match signed_spec(
                old(self).data_spec(),
                old(self).index_spec(),
                0x7fff_ffff_ffff_ffff,
            ) {
                Ok(v) => Ok(v as i64),
                Err(e) => Err(e),
            },
            recoverable(r) ==> final(self).index_spec() == old(self).index_spec() + u64_spec(
                old(self).data_spec(),
                old(self).index_spec(),
            ).1,
    {
        match self.read_at_most(0x7fff_ffff_ffff_ffff) {
            Ok(v) => Ok(zag(v)),
            Err(e) => Err(e),
        }
    }

    /// Reads a byte array field: a length, then that many bytes. A field of
    /// another kind is a [`ValidReadError::WrongMessage`].
    pub fn read_bytes(&mut self) -> (r: Result<&'a [u8], ReadError>)
        requires
            old(self).wf(),
        ensures
            final(self).wf(),
            final(self).data_spec() == old(self).data_spec(),
            ({
                let d = old(self).data_spec();
                let i = old(self).index_spec();
                match header_spec(d, i) {
                    Err(e) => r == Err::<&'a [u8], ReadError>(ReadError::Invalid(e)),
                    Ok((h, extra)) => if h != Header::Bytes {
                        r == Err::<&'a [u8], ReadError>(
                            ReadError::Valid(ValidReadError::WrongMessage(h, Header::Bytes)),
                        ) && final(self).index_spec() == i + 1
                    } else {
                        let (n, c) = varint_spec(d, i + 1, extra);
                        match n {
                            Err(e) => r == Err::<&'a [u8], ReadError>(ReadError::Invalid(e)),
                            Ok(n) => if n > d.len() - (i + 1 + c) {
                                r == Err::<&'a [u8], ReadError>(
                                    ReadError::Invalid(InvalidReadError::InvalidBufLength),
                                )
                            } else {
                                r matches Ok(b) && b@ == d.subrange(i + 1 + c, i + 1 + c + n)
                                    && final(self).index_spec() == i + 1 + c + n
                            },
                        }
                    },
                }
            }),
    {
        let (header, extra) = match self.read_header() {
            Ok(v) => v,
            Err(e) => {
                return Err(ReadError::Invalid(e));
            },
        };
        if header != Header::Bytes {
            return Err(ReadError::Valid(ValidReadError::WrongMessage(header, Header::Bytes)));
        }
        let len = match self.read_varint(extra) {
            Ok(n) => n,
            Err(e) => {
                return Err(ReadError::Invalid(e));
            },
        };
        match self.read_buf(len) {
            Ok(b) => Ok(b),
            Err(e) => Err(ReadError::Invalid(e)),
        }
    }

    /// Reads a struct field: its field count, then its fields, through
    /// `S::read_struct`. The reader moves past the whole struct first, so it
    /// stays valid whatever `S` reads. A field of another kind is skipped
    /// and is a [`ValidReadError::WrongMessage`].
    pub fn read_struct<S: StructRead>(&mut self) -> (r: Result<S, ReadError>)
        requires
            old(self).wf(),
        ensures
            final(self).wf(),
            final(self).data_spec() == old(self).data_spec(),
            ({
                let d = old(self).data_spec();
                let i = old(self).index_spec();
                match header_spec(d, i) {
                    Err(e) => r == Err::<S, ReadError>(ReadError::Invalid(e)),
                    Ok((h, extra)) => if h == Header::Struct {
                        match struct_body_spec(d, i + 1, extra) {
                            Err(e) => r == Err::<S, ReadError>(ReadError::Invalid(e)),
                            Ok(c) => final(self).index_spec() == i + 1 + c,
                        }
                    } else {
                        let (w, c) = wrong_field_spec(d, i, h, Header::Struct);
                        r == Err::<S, ReadError>(w) && (recoverable(r) ==> final(self).index_spec()
                            == i + c)
                    },
                }
            }),
    {
        let (header, extra) = match self.read_header() {
            Ok(v) => v,
            Err(e) => {
                return Err(ReadError::Invalid(e));
            },
        };
        match header {
            Header::Struct => {
                let max_fields = match self.read_varint(extra) {
                    Ok(n) => n,
                    Err(e) => {
                        return Err(ReadError::Invalid(e));
                    },
                };
                let start_idx = self.idx;
                match self.skip_fields(max_fields) {
                    Ok(()) => {},
                    Err(e) => {
                        return Err(ReadError::Invalid(e));
                    },
                }
                S::read_struct(
                    StructReader {
                        reader: MessageReader { data: self.data, idx: start_idx },
                        current_field: 0,
                        max_fields,
                    },
                )
            },
            m => {
                self.undo_read_byte();
                match self.skip_field() {
                    Ok(()) => {},
                    Err(e) => {
                        return Err(ReadError::Invalid(e));
                    },
                }
                Err(ReadError::Valid(ValidReadError::WrongMessage(m, Header::Struct)))
            },
        }
    }

    /// Reads an enum field: its variant, then one struct of fields, through
    /// `E::read_enum`. A field of another kind, or an enum whose body is not
    /// a struct, is skipped and is a [`ValidReadError::WrongMessage`].
    pub fn read_enum<E: EnumRead>(&mut self) -> (r: Result<E, ReadError>)
        requires
            old(self).wf(),
        ensures
            final(self).wf(),
            final(self).data_spec() == old(self).data_spec(),
            ({
                let d = old(self).data_spec();
                let i = old(self).index_spec();
                match header_spec(d, i) {
                    Err(e) => r == Err::<E, ReadError>(ReadError::Invalid(e)),
                    Ok((h, extra)) => if h == Header::Enum {
                        let (v, c) = varint_spec(d, i + 1, extra);
                        let j = i + 1 + c;
                        match v {
                            Err(e) => r == Err::<E, ReadError>(ReadError::Invalid(e)),
                            Ok(_) => match header_spec(d, j) {
                                Err(e) => r == Err::<E, ReadError>(ReadError::Invalid(e)),
                                Ok((h2, extra2)) => if h2 == Header::Struct {
                                    match struct_body_spec(d, j + 1, extra2) {
                                        Err(e) => r == Err::<E, ReadError>(ReadError::Invalid(e)),
                                        Ok(c2) => final(self).index_spec() == j + 1 + c2,
                                    }
                                } else {
                                    let (w, c2) = wrong_field_spec(d, j, h2, Header::Struct);
                                    r == Err::<E, ReadError>(w) && (recoverable(r)
                                        ==> final(self).index_spec() == j + c2)
                                },
                            },
                        }
                    } else {
                        let (w, c) = wrong_field_spec(d, i, h, Header::Enum);
                        r == Err::<E, ReadError>(w) && (recoverable(r) ==> final(self).index_spec()
                            == i + c)
                    },
                }
            }),
    {
        let (header, extra) = match self.read_header() {
            Ok(v) => v,
            Err(e) => {
                return Err(ReadError::Invalid(e));
            },
        };
        match header {
            Header::Enum => {
                let variant = match self.read_varint(extra) {
                    Ok(n) => n,
                    Err(e) => {
                        return Err(ReadError::Invalid(e));
                    },
                };
                let (header, extra) = match self.read_header() {
                    Ok(v) => v,
                    Err(e) => {
                        return Err(ReadError::Invalid(e));
                    },
                };
                match header {
                    Header::Struct => {
                        let max_fields = match self.read_varint(extra) {
                            Ok(n) => n,
                            Err(e) => {
                                return Err(ReadError::Invalid(e));
                            },
                        };
                        let start_idx = self.idx;
                        match self.skip_fields(max_fields) {
                            Ok(()) => {},
                            Err(e) => {
                                return Err(ReadError::Invalid(e));
                            },
                        }
                        E::read_enum(
                            EnumReader {
                                reader: MessageReader { data: self.data, idx: start_idx },
                                variant,
                                current_field: 0,
                                max_fields,
                            },
                        )
                    },
                    m => {
                        self.undo_read_byte();
                        match self.skip_field() {
                            Ok(()) => {},
                            Err(e) => {
                                return Err(ReadError::Invalid(e));
                            },
                        }
                        Err(ReadError::Valid(ValidReadError::WrongMessage(m, Header::Struct)))
                    },
                }
            },
            m => {
                self.undo_read_byte();
                match self.skip_field() {
                    Ok(()) => {},
                    Err(e) => {
                        return Err(ReadError::Invalid(e));
                    },
                }
                Err(ReadError::Valid(ValidReadError::WrongMessage(m, Header::Enum)))
            },
        }
    }
}

/// Anything that can be read from a [`MessageReader`].
pub trait MessageRead: Sized {
    /// What reading a value at `idx` of `data` gives.
    spec fn read_spec(data: Seq<u8>, idx: int) -> Result<Self, ReadError>;

    /// How many bytes reading a value at `idx` of `data` takes, where the
    /// reader can go on afterwards.
    spec fn read_len(data: Seq<u8>, idx: int) -> nat;

    /// Reads a value from the reader.
    fn read(reader: &mut MessageReader) -> (r: Result<Self, ReadError>)
        requires
            old(reader).wf(),
        ensures
            final(reader).wf(),
            final(reader).data_spec() == old(reader).data_spec(),
            r == Self::read_spec(old(reader).data_spec(), old(reader).index_spec()),
            recoverable(r) ==> final(reader).index_spec() == old(reader).index_spec()
                + Self::read_len(old(reader).data_spec(), old(reader).index_spec()),
    ;
}

/// A struct that can be read field by field from a [`StructReader`].
pub trait StructRead {
    /// Reads a value from the fields of a struct.
    fn read_struct(reader: StructReader) -> Result<Self, ReadError> where Self: Sized;
}

/// An enum that can be read from an [`EnumReader`].
pub trait EnumRead {
    /// Reads a value from a variant and its fields.
    fn read_enum(reader: EnumReader) -> Result<Self, ReadError> where Self: Sized;
}

/// The fields of a struct being read. Fields are read by increasing index;
/// those skipped over are passed, and those past the end of the struct
/// read as the default value. This is what lets a reader know fewer or more
/// fields than the writer.
pub struct StructReader<'a> {
    reader: MessageReader<'a>,
    current_field: u64,
    max_fields: u64,
}

/// The variant and fields of an enum being read.
pub struct EnumReader<'a> {
    reader: MessageReader<'a>,
    variant: u64,
    current_field: u64,
    max_fields: u64,
}

/// What reading field `field` of a struct gives, from `idx` of `data`, with
/// `skip` fields before it to pass over: a [`ReadError::Valid`] error reads
/// as the default value.
pub open spec fn field_read<T: Default + MessageRead>(
    data: Seq<u8>,
    idx: int,
    skip: u64,
    r: Result<T, ReadError>,
) -> bool {
    match skip_fields_spec(data, idx, skip) {
        Err(e) => r == Err::<T, ReadError>(ReadError::Invalid(e)),
        Ok(c) => match T::read_spec(data, idx + c) {
            Ok(v) => r == Ok::<T, ReadError>(v),
            Err(ReadError::Valid(_)) => r matches Ok(v) && call_ensures(T::default, (), v),
            Err(ReadError::Invalid(e)) => r == Err::<T, ReadError>(ReadError::Invalid(e)),
        },
    }
}

/// Reads field `field` of a struct whose fields start at `reader`, the
/// next unread one being `current`, out of `max`.
fn read_field<T: Default + MessageRead>(
    reader: &mut MessageReader,
    current: &mut u64,
    max: u64,
    field: u64,
) -> (r: Result<T, ReadError>)
    requires
        old(reader).wf(),
        *old(current) <= field < u64::MAX,
    ensures
        final(reader).wf(),
        final(reader).data_spec() == old(reader).data_spec(),
        *final(current) <= field + 1,
        r matches Err(e) ==> e is Invalid,
        field >= max ==> (r matches Ok(v) ==> call_ensures(T::default, (), v)),
        field < max ==> field_read(
            old(reader).data_spec(),
            old(reader).index_spec(),
            (field - *old(current)) as u64,
            r,
        ),
        field < max && r is Ok ==> *final(current) == field + 1,
{
    let ghost d = reader.data@;
    let ghost i0 = reader.idx as int;
    let ghost n = (field - *current) as u64;
    *current = *current + 1;
    while *current <= field
        invariant
            reader.wf(),
            reader.data@ == d,
            d == old(reader).data@,
            i0 == old(reader).idx,
            i0 <= reader.idx,
            n == field - *old(current),
            *old(current) < *current <= field + 1,
            field < u64::MAX,
            skip_fields_spec(d, i0, n) == match skip_fields_spec(
                d,
                reader.idx as int,
                (field + 1 - *current) as u64,
            ) {
                Ok(c) => Ok((reader.idx - i0 + c) as nat),
                Err(e) => Err::<nat, InvalidReadError>(e),
            },
        decreases field + 1 - *current,
    {
        match reader.skip_field() {
            Ok(()) => {},
            Err(e) => {
                return Err(ReadError::Invalid(e));
            },
        }
        if *current >= max {
            return Ok(T::default());
        }
        *current = *current + 1;
    }
    if field >= max {
        Ok(T::default())
    } else {
        assert(skip_fields_spec(d, reader.idx as int, 0) == Ok::<nat, InvalidReadError>(0));
        assert(skip_fields_spec(d, i0, n) == Ok::<nat, InvalidReadError>((reader.idx - i0) as nat));
        match T::read(reader) {
            Ok(v) => Ok(v),
            Err(ReadError::Valid(_)) => Ok(T::default()),
            Err(ReadError::Invalid(e)) => Err(ReadError::Invalid(e)),
        }
    }
}

impl<'a> StructReader<'a> {
    /// The reader over the struct's fields.
    pub closed spec fn reader_spec(&self) -> MessageReader<'a> {
        self.reader
    }

    /// The index of the next field that can be read.
    pub closed spec fn current_field_spec(&self) -> u64 {
        self.current_field
    }

    /// The number of fields that the struct has.
    pub closed spec fn max_fields_spec(&self) -> u64 {
        self.max_fields
    }

    /// Reads the field with index `field`, passing over those before it.
    /// Past the struct's last field, and where the field has another kind
    /// than `T` (a [`ReadError::Valid`] error), the default value is read:
    /// only [`ReadError::Invalid`] errors come out.
    pub fn read<T: Default + MessageRead>(&mut self, field: u64) -> (r: Result<T, ReadError>)
        requires
            old(self).reader_spec().wf(),
            old(self).current_field_spec() <= field < u64::MAX,
        ensures
            final(self).reader_spec().wf(),
            final(self).reader_spec().data_spec() == old(self).reader_spec().data_spec(),
            final(self).max_fields_spec() == old(self).max_fields_spec(),
            final(self).current_field_spec() <= field + 1,
            r matches Err(e) ==> e is Invalid,
            field >= old(self).max_fields_spec() ==> (r matches Ok(v) ==> call_ensures(
                T::default,
                (),
                v,
            )),
            field < old(self).max_fields_spec() ==> field_read(
                old(self).reader_spec().data_spec(),
                old(self).reader_spec().index_spec(),
                (field - old(self).current_field_spec()) as u64,
                r,
            ),
            field < old(self).max_fields_spec() && r is Ok ==> final(self).current_field_spec()
                == field + 1,
    {
        read_field(&mut self.reader, &mut self.current_field, self.max_fields, field)
    }
}

impl<'a> EnumReader<'a> {
    /// The reader over the variant's fields.
    pub closed spec fn reader_spec(&self) -> MessageReader<'a> {
        self.reader
    }

    pub closed spec fn variant_spec(&self) -> u64 {
        self.variant
    }

    /// The index of the next field that can be read.
    pub closed spec fn current_field_spec(&self) -> u64 {
        self.current_field
    }

    /// The number of fields that the variant has.
    pub closed spec fn max_fields_spec(&self) -> u64 {
        self.max_fields
    }

    /// The variant of the enum, to match on in [`EnumRead`] impls.
    pub fn variant(&self) -> (r: u64)
        ensures
            r == self.variant_spec(),
    {
        self.variant
    }

    /// The error for a variant that the reader does not know.
    pub fn invalid_variant(&mut self) -> (r: ReadError)
        ensures
            r == ReadError::Valid(ValidReadError::InvalidVariant(old(self).variant_spec())),
            *final(self) == *old(self),
    {
        ReadError::Valid(ValidReadError::InvalidVariant(self.variant))
    }

    /// Reads the field with index `field`, as [`StructReader::read`] does.
    pub fn read<T: Default + MessageRead>(&mut self, field: u64) -> (r: Result<T, ReadError>)
        requires
            old(self).reader_spec().wf(),
            old(self).current_field_spec() <= field < u64::MAX,
        ensures
            final(self).reader_spec().wf(),
            final(self).reader_spec().data_spec() == old(self).reader_spec().data_spec(),
            final(self).variant_spec() == old(self).variant_spec(),
            final(self).max_fields_spec() == old(self).max_fields_spec(),
            final(self).current_field_spec() <= field + 1,
            r matches Err(e) ==> e is Invalid,
            field >= old(self).max_fields_spec() ==> (r matches Ok(v) ==> call_ensures(
                T::default,
                (),
                v,
            )),
            field < old(self).max_fields_spec() ==> field_read(
                old(self).reader_spec().data_spec(),
                old(self).reader_spec().index_spec(),
                (field - old(self).current_field_spec()) as u64,
                r,
            ),
            field < old(self).max_fields_spec() && r is Ok ==> final(self).current_field_spec()
                == field + 1,
    {
        read_field(&mut self.reader, &mut self.current_field, self.max_fields, field)
    }
}

impl MessageRead for bool {
    open spec fn read_spec(data: Seq<u8>, idx: int) -> Result<bool, ReadError> {
        match unsigned_spec(data, idx, 1) {
            Ok(v) => Ok(v == 1),
            Err(e) => Err(e),
        }
    }

    open spec fn read_len(data: Seq<u8>, idx: int) -> nat {
        u64_spec(data, idx).1
    }

    fn read(reader: &mut MessageReader) -> (r: Result<bool, ReadError>) {
        reader.read_bool()
    }
}

impl MessageRead for u8 {
    open spec fn read_spec(data: Seq<u8>, idx: int) -> Result<u8, ReadError> {
        match unsigned_spec(data, idx, 0xff) {
            Ok(v) => Ok(v as u8),
            Err(e) => Err(e),
        }
    }

    open spec fn read_len(data: Seq<u8>, idx: int) -> nat {
        u64_spec(data, idx).1
    }

    fn read(reader: &mut MessageReader) -> (r: Result<u8, ReadError>) {
        reader.read_u8()
    }
}

impl MessageRead for u16 {
    open spec fn read_spec(data: Seq<u8>, idx: int) -> Result<u16, ReadError> {
        match unsigned_spec(data, idx, 0xffff) {
            Ok(v) => Ok(v as u16),
            Err(e) => Err(e),
        }
    }

    open spec fn read_len(data: Seq<u8>, idx: int) -> nat {
        u64_spec(data, idx).1
    }

    fn read(reader: &mut MessageReader) -> (r: Result<u16, ReadError>) {
        reader.read_u16()
    }
}

impl MessageRead for u32 {
    open spec fn read_spec(data: Seq<u8>, idx: int) -> Result<u32, ReadError> {
        match unsigned_spec(data, idx, 0xffff_ffff) {
            Ok(v) => Ok(v as u32),
            Err(e) => Err(e),
        }
    }

    open spec fn read_len(data: Seq<u8>, idx: int) -> nat {
        u64_spec(data, idx).1
    }

    fn read(reader: &mut MessageReader) -> (r: Result<u32, ReadError>) {
        reader.read_u32()
    }
}

impl MessageRead for u64 {
    open spec fn read_spec(data: Seq<u8>, idx: int) -> Result<u64, ReadError> {
        u64_spec(data, idx).0
    }

    open spec fn read_len(data: Seq<u8>, idx: int) -> nat {
        u64_spec(data, idx).1
    }

    fn read(reader: &mut MessageReader) -> (r: Result<u64, ReadError>) {
        reader.read_u64()
    }
}

impl MessageRead for i8 {
    open spec fn read_spec(data: Seq<u8>, idx: int) -> Result<i8, ReadError> {
        match signed_spec(data, idx, 0x7f) {
            Ok(v) => Ok(v as i8),
            Err(e) => Err(e),
        }
    }

    open spec fn read_len(data: Seq<u8>, idx: int) -> nat {
        u64_spec(data, idx).1
    }

    fn read(reader: &mut MessageReader) -> (r: Result<i8, ReadError>) {
        reader.read_i8()
    }
}

impl MessageRead for i16 {
    open spec fn read_spec(data: Seq<u8>, idx: int) -> Result<i16, ReadError> {
        match signed_spec(data, idx, 0x7fff) {
            Ok(v) => Ok(v as i16),
            Err(e) => Err(e),
        }
    }

    open spec fn read_len(data: Seq<u8>, idx: int) -> nat {
        u64_spec(data, idx).1
    }

    fn read(reader: &mut MessageReader) -> (r: Result<i16, ReadError>) {
        reader.read_i16()
    }
}

impl MessageRead for i32 {
    open spec fn read_spec(data: Seq<u8>, idx: int) -> Result<i32, ReadError> {
        match signed_spec(data, idx, 0x7fff_ffff) {
            Ok(v) => Ok(v as i32),
            Err(e) => Err(e),
        }
    }

    open spec fn read_len(data: Seq<u8>, idx: int) -> nat {
        u64_spec(data, idx).1
    }

    fn read(reader: &mut MessageReader) -> (r: Result<i32, ReadError>) {
        reader.read_i32()
    }
}

impl MessageRead for i64 {
    open spec fn read_spec(data: Seq<u8>, idx: int) -> Result<i64, ReadError> {
        match signed_spec(data, idx, 0x7fff_ffff_ffff_ffff) {
            Ok(v) => Ok(v as i64),
            Err(e) => Err(e),
        }
    }

    open spec fn read_len(data: Seq<u8>, idx: int) -> nat {
        u64_spec(data, idx).1
    }

    fn read(reader: &mut MessageReader) -> (r: Result<i64, ReadError>) {
        reader.read_i64()
    }
}

} // verus!
