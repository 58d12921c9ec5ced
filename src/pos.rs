//! Block positions, and the error for a position out of bounds.
use vstd::prelude::*;

verus! {

/// A block position. Within a chunk column, `x` and `z` are in `0..16`
/// and `y` is the height.
#[derive(Clone, Copy, Debug, PartialEq, Eq, Structural)]
pub struct Pos {
    pub x: i32,
    pub y: i32,
    pub z: i32,
}

/// Whether every coordinate of `p` is in `0..16`.
pub open spec fn in_section(p: Pos) -> bool {
    0 <= p.x < 16 && 0 <= p.y < 16 && 0 <= p.z < 16
}

/// The index of the cell at `p` within a section: `y * 256 + z * 16 + x`.
pub open spec fn cell_index(p: Pos) -> int {
    p.y * 256 + p.z * 16 + p.x
}

impl Pos {
    pub fn new(x: i32, y: i32, z: i32) -> (r: Pos)
        ensures
            r == (Pos { x, y, z }),
    {
        Pos { x, y, z }
    }

    pub fn x(&self) -> (r: i32)
        ensures
            r == self.x,
    {
        self.x
    }

    pub fn y(&self) -> (r: i32)
        ensures
            r == self.y,
    {
        self.y
    }

    pub fn z(&self) -> (r: i32)
        ensures
            r == self.z,
    {
        self.z
    }

    /// The index of the section that holds this height: `y` divided by 16,
    /// rounded down.
    pub fn chunk_y(&self) -> (r: i32)
        ensures
            r as int == self.y as int / 16,
    {
        if self.y >= 0 {
            self.y / 16
        } else {
            let n = -(self.y as i64);
            (-((n + 15) / 16)) as i32
        }
    }

    /// The height within its section, in `0..16`.
    pub fn chunk_rel_y(&self) -> (r: i32)
        ensures
            r as int == self.y as int % 16,
            0 <= r < 16,
    {
        let c = self.chunk_y();
        (self.y as i64 - c as i64 * 16) as i32
    }

    /// The error that names this position.
    pub fn err(&self) -> (r: PosError)
        ensures
            r == PosError::OutOfBounds(*self),
    {
        PosError::OutOfBounds(*self)
    }
}

/// A position outside the bounds of a section or a chunk column.
#[derive(Clone, Copy, Debug, PartialEq, Eq, Structural)]
pub enum PosError {
    OutOfBounds(Pos),
}

} // verus!
