//! The hierarchical hex-sphere index: resolutions, and the few operations
//! of the H3 index (through `h3o`) that the simulation relies on.
//!
//! A cell is handled as its 64-bit H3 index.
use vstd::prelude::*;

verus! {

/// The subdivision level of the tessellation, from the 122 root cells
/// (`Zero`) to the finest grid (`Fifteen`).
#[derive(Clone, Copy, Debug, PartialEq, Eq, Structural, Hash)]
pub enum Resolution {
    Zero,
    One,
    Two,
    Three,
    Four,
    Five,
    Six,
    Seven,
    Eight,
    Nine,
    Ten,
    Eleven,
    Twelve,
    Thirteen,
    Fourteen,
    Fifteen,
}

/// The finest level of the tessellation.
pub const MAX_LEVEL: u32 = 15;

/// The number of root cells of the tessellation.
pub const ROOT_CELL_COUNT: u64 = 122;

/// The level number of a resolution.
pub open spec fn level_of(r: Resolution) -> u32 {
    match r {
        Resolution::Zero => 0,
        Resolution::One => 1,
        Resolution::Two => 2,
        Resolution::Three => 3,
        Resolution::Four => 4,
        Resolution::Five => 5,
        Resolution::Six => 6,
        Resolution::Seven => 7,
        Resolution::Eight => 8,
        Resolution::Nine => 9,
        Resolution::Ten => 10,
        Resolution::Eleven => 11,
        Resolution::Twelve => 12,
        Resolution::Thirteen => 13,
        Resolution::Fourteen => 14,
        Resolution::Fifteen => 15,
    }
}

/// The level number of a resolution.
pub fn as_number(r: &Resolution) -> (n: u32)
    ensures
        n == level_of(*r),
        n <= MAX_LEVEL,
{
    match r {
        Resolution::Zero => 0,
        Resolution::One => 1,
        Resolution::Two => 2,
        Resolution::Three => 3,
        Resolution::Four => 4,
        Resolution::Five => 5,
        Resolution::Six => 6,
        Resolution::Seven => 7,
        Resolution::Eight => 8,
        Resolution::Nine => 9,
        Resolution::Ten => 10,
        Resolution::Eleven => 11,
        Resolution::Twelve => 12,
        Resolution::Thirteen => 13,
        Resolution::Fourteen => 14,
        Resolution::Fifteen => 15,
    }
}

/// The resolution of level `i`, if there is one.
pub fn as_resolution(i: u32) -> (r: Option<Resolution>)
    ensures
        match r {
            Some(res) => i <= MAX_LEVEL && level_of(res) == i,
            None => i > MAX_LEVEL,
        },
{
    match i {
        0 => Some(Resolution::Zero),
        1 => Some(Resolution::One),
        2 => Some(Resolution::Two),
        3 => Some(Resolution::Three),
        4 => Some(Resolution::Four),
        5 => Some(Resolution::Five),
        6 => Some(Resolution::Six),
        7 => Some(Resolution::Seven),
        8 => Some(Resolution::Eight),
        9 => Some(Resolution::Nine),
        10 => Some(Resolution::Ten),
        11 => Some(Resolution::Eleven),
        12 => Some(Resolution::Twelve),
        13 => Some(Resolution::Thirteen),
        14 => Some(Resolution::Fourteen),
        15 => Some(Resolution::Fifteen),
        _ => None,
    }
}

/// The next finer resolution, or `None` at the finest.
pub fn inc_resolution(r: &Resolution) -> (next: Option<Resolution>)
    ensures
        match next {
            Some(n) => level_of(n) == level_of(*r) + 1,
            None => level_of(*r) == MAX_LEVEL,
        },
{
    as_resolution(as_number(r) + 1)
}

/// The next coarser resolution, or `None` at the coarsest.
pub fn dec_resolution(r: &Resolution) -> (prev: Option<Resolution>)
    ensures
        match prev {
            Some(p) => level_of(p) + 1 == level_of(*r),
            None => level_of(*r) == 0,
        },
{
    let n = as_number(r);
    if n == 0 {
        None
    } else {
        as_resolution(n - 1)
    }
}

/// The resolution stored in the bits 52 to 55 of an H3 cell index.
pub open spec fn cell_level(cell: u64) -> u64 {
    (cell >> 52u64) & 15u64
}

/// The H3 index of root cell number `k`: mode 1 (cell), resolution 0, base
/// cell `k` in bits 45 to 51, every digit unused (7).
pub open spec fn root_cell(k: int) -> u64 {
    (0x0800_1fff_ffff_ffffu64 + k * 0x2000_0000_0000) as u64
}

/// The cells of level `level` that subdivide `cell`, in the index's order.
pub uninterp spec fn children_of(cell: u64, level: u8) -> Seq<u64>;

/// The cells within grid distance 1 of `cell`, `cell` itself included.
pub uninterp spec fn disk_of(cell: u64) -> Seq<u64>;

/// The local IJ coordinates of `cell` in the frame anchored at `origin`,
/// or `None` where the frame does not reach it.
pub uninterp spec fn local_ij_of(cell: u64, origin: u64) -> Option<(i32, i32)>;

/// The cell at local IJ coordinates `(i, j)` of the frame anchored at
/// `anchor`, or `None` where no cell lies there.
pub uninterp spec fn cell_at_local_ij(anchor: u64, i: i32, j: i32) -> Option<u64>;

/// Relies on h3o::CellIndex::base_cells: the 122 root cells, base cell
/// 0 first, each the default cell index with its base cell bits set.
#[verifier::external_body]
pub(crate) fn root_cells() -> (r: Vec<u64>)
    ensures
        r@ == Seq::new(ROOT_CELL_COUNT as nat, |k: int| root_cell(k)),
{
    h3o::CellIndex::base_cells().map(u64::from).collect()
}

/// Relies on h3o::CellIndex::children: the children of a cell at the given
/// resolution, each of that resolution. An invalid index or level has none.
#[verifier::external_body]
pub(crate) fn children(cell: u64, level: u8) -> (r: Vec<u64>)
    ensures
        r@ == children_of(cell, level),
        forall|i: int| 0 <= i < r@.len() ==> cell_level(#[trigger] r@[i]) == level,
{
    match (h3o::CellIndex::try_from(cell), h3o::Resolution::try_from(level)) {
        (Ok(c), Ok(res)) => c.children(res).map(u64::from).collect(),
        _ => Vec::new(),
    }
}

/// Relies on h3o::CellIndex::grid_disk with k = 1: the cell and its
/// neighbours. An invalid index has none.
#[verifier::external_body]
pub(crate) fn grid_disk(cell: u64) -> (r: Vec<u64>)
    ensures
        r@ == disk_of(cell),
{
    match h3o::CellIndex::try_from(cell) {
        Ok(c) => c.grid_disk::<Vec<_>>(1).into_iter().map(u64::from).collect(),
        Err(_) => Vec::new(),
    }
}

/// Relies on h3o::CellIndex::to_local_ij: the IJ coordinates of a cell in
/// the frame anchored at `origin`.
#[verifier::external_body]
pub(crate) fn local_ij(cell: u64, origin: u64) -> (r: Option<(i32, i32)>)
    ensures
        r == local_ij_of(cell, origin),
{
    match (h3o::CellIndex::try_from(cell), h3o::CellIndex::try_from(origin)) {
        (Ok(c), Ok(o)) => c.to_local_ij(o).ok().map(|l| (l.coord.i, l.coord.j)),
        _ => None,
    }
}

/// Relies on the conversion of h3o::LocalIJ into h3o::CellIndex: the cell at
/// IJ coordinates `(i, j)` of the frame anchored at `anchor`.
#[verifier::external_body]
pub(crate) fn cell_from_local_ij(anchor: u64, i: i32, j: i32) -> (r: Option<u64>)
    ensures
        r == cell_at_local_ij(anchor, i, j),
{
    match h3o::CellIndex::try_from(anchor) {
        Ok(a) => {
            let lij = h3o::LocalIJ::new(a, h3o::CoordIJ::new(i, j));
            h3o::CellIndex::try_from(lij).ok().map(u64::from)
        },
        Err(_) => None,
    }
}

} // verus!
