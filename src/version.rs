//! Block id conversion between protocol versions. A table lists, for each
//! block id of the latest version, the id that each older version uses for
//! it.
use std::collections::HashMap;
use vstd::prelude::*;
use vstd::string::StringSliceAdditionalSpecFns;

verus! {

broadcast use vstd::std_specs::hash::group_hash_axioms;

/// The protocol versions whose block ids differ.
#[derive(Clone, Copy, Debug, PartialEq, Eq, Structural)]
pub enum BlockVersion {
    V1_8,
    V1_9,
    V1_10,
    V1_11,
    V1_12,
    V1_13,
    V1_14,
    V1_15,
    V1_16,
}

/// The byte of the digit `0`.
pub const ZERO: u8 = 48;

/// The byte of the digit `9`.
pub const NINE: u8 = 57;

/// The byte of a comma, which ends a field.
pub const COMMA: u8 = 44;

/// The byte of a carriage return, which is passed over.
pub const CR: u8 = 13;

/// The byte of a line feed, which ends a row.
pub const LF: u8 = 10;

/// The number of older versions, those that the table converts to.
pub const OLD_VERSIONS: usize = 8;

/// The position of a version, oldest first.
pub open spec fn index_of(v: BlockVersion) -> nat {
    match v {
        BlockVersion::V1_8 => 0,
        BlockVersion::V1_9 => 1,
        BlockVersion::V1_10 => 2,
        BlockVersion::V1_11 => 3,
        BlockVersion::V1_12 => 4,
        BlockVersion::V1_13 => 5,
        BlockVersion::V1_14 => 6,
        BlockVersion::V1_15 => 7,
        BlockVersion::V1_16 => 8,
    }
}

impl BlockVersion {
    /// The newest version, whose ids are the ones stored.
    pub fn latest() -> (r: BlockVersion)
        ensures
            r == BlockVersion::V1_16,
    {
        BlockVersion::V1_16
    }

    /// The version at a position, oldest first.
    pub fn from_index(k: usize) -> (r: BlockVersion)
        requires
            k <= OLD_VERSIONS,
        ensures
            index_of(r) == k,
    {
        match k {
            0 => BlockVersion::V1_8,
            1 => BlockVersion::V1_9,
            2 => BlockVersion::V1_10,
            3 => BlockVersion::V1_11,
            4 => BlockVersion::V1_12,
            5 => BlockVersion::V1_13,
            6 => BlockVersion::V1_14,
            7 => BlockVersion::V1_15,
            _ => BlockVersion::V1_16,
        }
    }

    /// The position of this version, oldest first.
    pub fn to_index(&self) -> (r: usize)
        ensures
            r == index_of(*self),
    {
        match self {
            BlockVersion::V1_8 => 0,
            BlockVersion::V1_9 => 1,
            BlockVersion::V1_10 => 2,
            BlockVersion::V1_11 => 3,
            BlockVersion::V1_12 => 4,
            BlockVersion::V1_13 => 5,
            BlockVersion::V1_14 => 6,
            BlockVersion::V1_15 => 7,
            BlockVersion::V1_16 => 8,
        }
    }
}

/// The state of reading the table: the numbers of the finished rows, the
/// number of fields of the current row, the width that the first row set,
/// the number being read and whether it has a digit, and whether the text
/// was refused.
pub struct CsvState {
    pub cells: Seq<u32>,
    pub row_len: nat,
    pub width: nat,
    pub num: u32,
    pub digits: bool,
    pub bad: bool,
}

/// The state after a field ends at the end of a row.
pub open spec fn end_row(st: CsvState) -> CsvState {
    let len = st.row_len + 1;
    CsvState {
        cells: st.cells.push(st.num),
        row_len: 0,
        width: if st.width == 0 {
            len
        } else {
            st.width
        },
        num: 0,
        digits: false,
        bad: st.width != 0 && st.width != len,
    }
}

/// The state after reading byte `b`.
pub open spec fn csv_step(st: CsvState, b: u8) -> CsvState {
    if st.bad {
        st
    } else if ZERO <= b <= NINE {
        if st.num * 10 + (b - ZERO) > u32::MAX {
            CsvState { bad: true, ..st }
        } else {
            CsvState { num: (st.num * 10 + (b - ZERO)) as u32, digits: true, ..st }
        }
    } else if b == COMMA {
        if !st.digits {
            CsvState { bad: true, ..st }
        } else {
            CsvState {
                cells: st.cells.push(st.num),
                row_len: st.row_len + 1,
                num: 0,
                digits: false,
                ..st
            }
        }
    } else if b == CR {
        st
    } else if b == LF {
        if st.digits {
            end_row(st)
        } else if st.row_len == 0 {
            st
        } else {
            CsvState { bad: true, ..st }
        }
    } else {
        CsvState { bad: true, ..st }
    }
}

/// The state after reading all of `text`.
pub open spec fn csv_state(text: Seq<u8>) -> CsvState
    decreases text.len(),
{
    if text.len() == 0 {
        CsvState { cells: seq![], row_len: 0, width: 0, num: 0, digits: false, bad: false }
    } else {
        csv_step(csv_state(text.drop_last()), text.last())
    }
}

/// The numbers of a table of decimal numbers, separated by commas, one row
/// per line, all rows as wide as the first, row after row; and the width. A
/// malformed table has none.
pub open spec fn csv_table(text: Seq<u8>) -> Option<(Seq<u32>, nat)> {
    let st = csv_state(text);
    let done = if st.digits {
        end_row(st)
    } else {
        st
    };
    if st.bad || done.bad || (!st.digits && st.row_len > 0) {
        None
    } else {
        Some((done.cells, done.width))
    }
}

/// Parses the conversion table.
pub fn parse_table(text: &[u8]) -> (r: Option<(Vec<u32>, usize)>)
    ensures
        match csv_table(text@) {
            None => r is None,
            Some((cells, width)) => r matches Some((c, w)) && c@ == cells && w == width,
        },
{
    let mut cells: Vec<u32> = Vec::new();
    let mut row_len: usize = 0;
    let mut width: usize = 0;
    let mut num: u32 = 0;
    let mut digits = false;
    let mut i: usize = 0;
    while i < text.len()
        invariant
            i <= text@.len(),
            ({
                let st = csv_state(text@.take(i as int));
                &&& !st.bad
                &&& st.cells == cells@
                &&& st.row_len == row_len
                &&& st.width == width
                &&& st.num == num
                &&& st.digits == digits
            }),
            row_len <= i,
            digits ==> row_len < i,
            width <= i + 1,
            cells@.len() <= i,
        decreases text@.len() - i,
    {
        let b = text[i];
        proof {
            assert(text@.take(i + 1).drop_last() =~= text@.take(i as int));
        }
        if ZERO <= b && b <= NINE {
            let d = (b - ZERO) as u32;
            if num > 429496729 || (num == 429496729 && d > 5) {
                proof {
                    lemma_bad_stays(text@, i as int + 1);
                }
                return None;
            }
            num = num * 10 + d;
            digits = true;
        } else if b == COMMA {
            if !digits {
                proof {
                    lemma_bad_stays(text@, i as int + 1);
                }
                return None;
            }
            cells.push(num);
            row_len += 1;
            num = 0;
            digits = false;
        } else if b == CR {
        } else if b == LF {
            if digits {
                cells.push(num);
                let len = row_len + 1;
                if width == 0 {
                    width = len;
                } else if width != len {
                    proof {
                        lemma_bad_stays(text@, i as int + 1);
                    }
                    return None;
                }
                row_len = 0;
                num = 0;
                digits = false;
            } else if row_len != 0 {
                proof {
                    lemma_bad_stays(text@, i as int + 1);
                }
                return None;
            }
        } else {
            proof {
                lemma_bad_stays(text@, i as int + 1);
            }
            return None;
        }
        i += 1;
    }
    assert(text@.take(i as int) =~= text@);
    if digits {
        cells.push(num);
        let len = row_len + 1;
        if width == 0 {
            width = len;
        } else if width != len {
            return None;
        }
    } else if row_len != 0 {
        return None;
    }
    Some((cells, width))
}

/// Once refused, a table stays refused whatever follows.
proof fn lemma_bad_stays(text: Seq<u8>, k: int)
    requires
        0 <= k <= text.len(),
        csv_state(text.take(k)).bad,
    ensures
        csv_state(text).bad,
    decreases text.len() - k,
{
    if k < text.len() {
        assert(text.take(k + 1).drop_last() =~= text.take(k));
        lemma_bad_stays(text, k + 1);
    } else {
        assert(text.take(k) =~= text);
    }
}

/// The number of columns of the table: the latest id, then one per older
/// version, newest first.
pub const COLUMNS: usize = 9;

/// The ids that column `j` gives to each latest id: air for the first row,
/// whose numbers only set the width.
pub open spec fn to_old_spec(cells: Seq<u32>, j: int) -> Seq<u32> {
    Seq::new(cells.len() / COLUMNS as nat, |i: int| if i == 0 { 0 } else { cells[i * COLUMNS + j] })
}

/// The latest id of each id of column `j`, over the first `n` rows: where
/// an id stands in several rows, the last one wins. Air stays air.
pub open spec fn to_new_spec(cells: Seq<u32>, j: int, n: nat) -> Map<u32, u32>
    decreases n,
{
    if n <= 1 {
        map![0u32 => 0u32]
    } else {
        to_new_spec(cells, j, (n - 1) as nat).insert(cells[(n - 1) * COLUMNS + j], (n - 1) as u32)
    }
}

/// The conversion table between one older version and the latest.
#[derive(Debug)]
pub struct Version {
    /// At each latest id, the id of the older version.
    to_old: Vec<u32>,
    /// Each id of the older version, mapped to a latest id.
    to_new: HashMap<u32, u32>,
    ver: BlockVersion,
}

impl Version {
    pub closed spec fn to_old_view(&self) -> Seq<u32> {
        self.to_old@
    }

    pub closed spec fn to_new_view(&self) -> Map<u32, u32> {
        self.to_new@
    }

    pub closed spec fn ver_spec(&self) -> BlockVersion {
        self.ver
    }

    /// The version that this table converts to.
    pub fn ver(&self) -> (r: BlockVersion)
        ensures
            r == self.ver_spec(),
    {
        self.ver
    }
}

/// Builds the table of column `j`.
fn build_version(cells: &Vec<u32>, j: usize, ver: BlockVersion) -> (r: Version)
    requires
        1 <= j < COLUMNS,
        cells@.len() / COLUMNS as nat <= u32::MAX,
    ensures
        r.to_old_view() == to_old_spec(cells@, j as int),
        r.to_new_view() == to_new_spec(cells@, j as int, (cells@.len() / COLUMNS as nat)),
        r.ver_spec() == ver,
{
    let len = cells.len();
    let n = len / COLUMNS;
    let mut to_old: Vec<u32> = Vec::new();
    let mut to_new: HashMap<u32, u32> = HashMap::new();
    to_old.push(0);
    to_new.insert(0, 0);
    assert(to_new@ =~= map![0u32 => 0u32]);
    if n == 0 {
        let r = Version { to_old: Vec::new(), to_new, ver };
        assert(r.to_old@ =~= to_old_spec(cells@, j as int));
        return r;
    }
    let mut i: usize = 1;
    while i < n
        invariant
            1 <= i <= n,
            len == cells@.len(),
            n == cells@.len() / COLUMNS as nat,
            n <= u32::MAX,
            1 <= j < COLUMNS,
            to_old@ =~= to_old_spec(cells@, j as int).take(i as int),
            to_new@ == to_new_spec(cells@, j as int, i as nat),
        decreases n - i,
    {
        assert(i * COLUMNS + j < len) by (nonlinear_arith)
            requires
                i < n,
                n == len / 9,
                j < 9,
                COLUMNS == 9,
        ;
        let v = cells[i * COLUMNS + j];
        to_old.push(v);
        to_new.insert(v, i as u32);
        i += 1;
    }
    assert(to_old_spec(cells@, j as int).take(n as int) =~= to_old_spec(cells@, j as int));
    Version { to_old, to_new, ver }
}

/// Reads the conversion tables of every older version out of the table
/// text, oldest first. The table must have `COLUMNS` columns and fewer than
/// 2^32 rows.
pub fn generate_versions(csv: &str) -> (r: Option<Vec<Version>>)
    ensures
        match csv_table(csv.spec_bytes()) {
            Some((cells, width)) => if width == COLUMNS && cells.len() / COLUMNS as nat <= u32::MAX {
                r matches Some(vs) && vs@.len() == OLD_VERSIONS && forall|k: int|
                    0 <= k < OLD_VERSIONS ==> {
                        &&& (#[trigger] vs@[k]).ver_spec() == version_at(k)
                        &&& vs@[k].to_old_view() == to_old_spec(cells, OLD_VERSIONS - k)
                        &&& vs@[k].to_new_view() == to_new_spec(
                            cells,
                            OLD_VERSIONS - k,
                            cells.len() / COLUMNS as nat,
                        )
                    }
            } else {
                r is None
            },
            None => r is None,
        },
{
    let (cells, width) = match parse_table(csv.as_bytes()) {
        Some(t) => t,
        None => {
            return None;
        },
    };
    if width != COLUMNS || cells.len() / COLUMNS > 0xffff_ffff {
        return None;
    }
    let mut versions: Vec<Version> = Vec::new();
    let mut k: usize = 0;
    while k < OLD_VERSIONS
        invariant
            k <= OLD_VERSIONS,
            cells@.len() / COLUMNS as nat <= u32::MAX,
            versions@.len() == k,
            forall|q: int|
                0 <= q < k ==> {
                    &&& (#[trigger] versions@[q]).ver_spec() == version_at(q)
                    &&& versions@[q].to_old_view() == to_old_spec(cells@, OLD_VERSIONS - q)
                    &&& versions@[q].to_new_view() == to_new_spec(
                        cells@,
                        OLD_VERSIONS - q,
                        cells@.len() / COLUMNS as nat,
                    )
                },
        decreases OLD_VERSIONS - k,
    {
        let v = build_version(&cells, OLD_VERSIONS - k, BlockVersion::from_index(k));
        versions.push(v);
        k += 1;
    }
    Some(versions)
}

/// The version at position `k`, oldest first.
pub open spec fn version_at(k: int) -> BlockVersion {
    if k <= 0 {
        BlockVersion::V1_8
    } else if k == 1 {
        BlockVersion::V1_9
    } else if k == 2 {
        BlockVersion::V1_10
    } else if k == 3 {
        BlockVersion::V1_11
    } else if k == 4 {
        BlockVersion::V1_12
    } else if k == 5 {
        BlockVersion::V1_13
    } else if k == 6 {
        BlockVersion::V1_14
    } else if k == 7 {
        BlockVersion::V1_15
    } else {
        BlockVersion::V1_16
    }
}

/// Converts block ids between the latest version and the older ones.
pub struct TypeConverter {
    versions: Vec<Version>,
}

impl TypeConverter {
    /// The table of the older version at position `k`.
    pub closed spec fn table(&self, k: int) -> Version {
        self.versions@[k]
    }

    pub closed spec fn wf(&self) -> bool {
        &&& self.versions@.len() == OLD_VERSIONS
        &&& forall|k: int| 0 <= k < OLD_VERSIONS ==> (#[trigger] self.versions@[k]).ver_spec() == version_at(k)
    }

    /// The id in version `ver` of the latest id `id`.
    pub open spec fn old_id(&self, id: u32, ver: BlockVersion) -> u32 {
        if ver == BlockVersion::V1_16 {
            id
        } else if id < self.table(index_of(ver) as int).to_old_view().len() {
            self.table(index_of(ver) as int).to_old_view()[id as int]
        } else {
            0
        }
    }

    /// A converter built from the table text; see [`generate_versions`].
    pub fn new(csv: &str) -> (r: Option<TypeConverter>)
        ensures
            match csv_table(csv.spec_bytes()) {
                Some((cells, width)) => if width == COLUMNS && cells.len() / COLUMNS as nat
                    <= u32::MAX {
                    r matches Some(c) && c.wf() && forall|k: int|
                        0 <= k < OLD_VERSIONS ==> {
                            &&& (#[trigger] c.table(k)).to_old_view() == to_old_spec(
                                cells,
                                OLD_VERSIONS - k,
                            )
                            &&& c.table(k).to_new_view() == to_new_spec(
                                cells,
                                OLD_VERSIONS - k,
                                cells.len() / COLUMNS as nat,
                            )
                        }
                } else {
                    r is None
                },
                None => r is None,
            },
    {
        match generate_versions(csv) {
            Some(versions) => Some(TypeConverter { versions }),
            None => None,
        }
    }

    /// The latest id of `id`, an id of version `ver`: air where `ver` has no
    /// such id. Ids of the latest version are kept.
    pub fn to_latest(&self, id: u32, ver: BlockVersion) -> (r: u32)
        requires
            self.wf(),
        ensures
            r == if ver == BlockVersion::V1_16 {
                id
            } else if self.table(index_of(ver) as int).to_new_view().contains_key(id) {
                self.table(index_of(ver) as int).to_new_view()[id]
            } else {
                0
            },
    {
        if ver == BlockVersion::latest() {
            return id;
        }
        match self.versions[ver.to_index()].to_new.get(&id) {
            Some(v) => *v,
            None => 0,
        }
    }

    /// The id in version `ver` of `id`, a latest id: air where the table has
    /// no such id.
    pub fn to_old(&self, id: u32, ver: BlockVersion) -> (r: u32)
        requires
            self.wf(),
        ensures
            r == self.old_id(id, ver),
    {
        if ver == BlockVersion::latest() {
            return id;
        }
        let table = &self.versions[ver.to_index()].to_old;
        if (id as usize) < table.len() {
            table[id as usize]
        } else {
            0
        }
    }
}

} // verus!
