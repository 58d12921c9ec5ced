//! The wire form of sections and chunk columns: a palette, the packed words
//! of the cells, and the metadata that the protocol carries with them.
use std::collections::HashMap;
use vstd::prelude::*;

use crate::bits::{low_mask, BitArray, ENTRIES};

verus! {

/// One section on the wire.
#[derive(Debug)]
pub struct ProtoSection {
    /// The block ids of the palette.
    pub palette: Vec<u32>,
    /// The number of bits of each packed palette index.
    pub bits_per_block: u32,
    /// The number of cells that are not air.
    pub non_air_blocks: i32,
    /// The packed palette indices, `64 * bits_per_block` words.
    pub data: Vec<u64>,
}

/// A chunk column on the wire: each allocated section under its layer.
#[derive(Debug)]
pub struct ProtoChunk {
    pub sections: HashMap<i32, ProtoSection>,
}

/// Why a section on the wire was refused.
#[derive(Clone, Copy, Debug, PartialEq, Eq, Structural)]
pub enum WireError {
    /// The bits per block are outside `4..=64`.
    BitsPerBlock(u32),
    /// The palette has more than 256 entries, or more than the bits per
    /// block can index.
    PaletteTooLong(usize),
    /// The palette does not start with air (`0`).
    MissingAir,
    /// The number of packed words is not `64 * bits_per_block`.
    DataLength(usize),
    /// The palette is not strictly ascending.
    Unsorted,
    /// A cell holds an index past the end of the palette.
    IndexOutOfPalette,
}

/// Whether `s` is strictly ascending.
pub open spec fn ascending(s: Seq<u32>) -> bool {
    forall|i: int, j: int| 0 <= i < j < s.len() ==> s[i] < s[j]
}

/// The first check on the shape of a section's parts that they fail, if any.
pub open spec fn shape_error(palette: Seq<u32>, bits: u32, data_len: nat) -> Option<WireError> {
    if bits < 4 || bits > 64 {
        Some(WireError::BitsPerBlock(bits))
    } else if palette.len() > 256 || palette.len() > low_mask(bits as u64) + 1 {
        Some(WireError::PaletteTooLong(palette.len() as usize))
    } else if palette.len() == 0 || palette[0] != 0 {
        Some(WireError::MissingAir)
    } else if data_len != 64 * bits {
        Some(WireError::DataLength(data_len as usize))
    } else if !ascending(palette) {
        Some(WireError::Unsorted)
    } else {
        None
    }
}

/// The first check that a section with these parts fails, if any.
pub open spec fn wire_error(palette: Seq<u32>, bits: u32, data: Seq<u64>) -> Option<WireError> {
    if shape_error(palette, bits, data.len()) is Some {
        shape_error(palette, bits, data.len())
    } else if exists|i: int|
        0 <= i < ENTRIES && #[trigger] BitArray::decode(data, bits as u64)[i] >= palette.len() {
        Some(WireError::IndexOutOfPalette)
    } else {
        None
    }
}

/// Checks the shape of a section on the wire: the bits per block, the
/// length of the palette and of the data, and the order of the palette.
pub fn validate_proto(pb: &ProtoSection) -> (r: Result<(), WireError>)
    ensures
        r == match shape_error(pb.palette@, pb.bits_per_block, pb.data@.len()) {
            Some(e) => Err(e),
            None => Ok(()),
        },
{
    let bits = pb.bits_per_block;
    if bits < 4 || bits > 64 {
        return Err(WireError::BitsPerBlock(bits));
    }
    let n = pb.palette.len();
    if n > 256 || (n > 0 && (n - 1) as u64 > BitArray::max_value(bits as u64)) {
        return Err(WireError::PaletteTooLong(n));
    }
    if n == 0 || pb.palette[0] != 0 {
        return Err(WireError::MissingAir);
    }
    if pb.data.len() != 64 * bits as usize {
        return Err(WireError::DataLength(pb.data.len()));
    }
    let mut i: usize = 1;
    while i < n
        invariant
            1 <= i <= n,
            n == pb.palette@.len(),
            4 <= pb.bits_per_block <= 64,
            n <= 256 && n <= low_mask(pb.bits_per_block as u64) + 1,
            pb.palette@[0] == 0,
            pb.data@.len() == 64 * pb.bits_per_block,
            forall|a: int, b: int| 0 <= a < b < i ==> pb.palette@[a] < pb.palette@[b],
        decreases n - i,
    {
        if pb.palette[i - 1] >= pb.palette[i] {
            assert(!ascending(pb.palette@)) by {
                assert(pb.palette@[i - 1] >= pb.palette@[i as int]);
            }

            return Err(WireError::Unsorted);
        }
        i += 1;
    }
    Ok(())
}

} // verus!
