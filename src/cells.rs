use vstd::prelude::*;

verus! {

/// The resolution at which grid cells are tessellated.
pub const FINE_RES: u8 = 10;

/// The resolution of the aggregated output.
pub const COARSE_RES: u8 = 8;

/// A 64-bit H3 index that names a cell: reserved bit clear, cell mode, and
/// one of the 122 base cells.
pub open spec fn raw_is_cell(raw: u64) -> bool {
    &&& (raw >> 63u64) == 0
    &&& ((raw >> 59u64) & 15u64) == 1
    &&& ((raw >> 45u64) & 127u64) < 122
}

/// The resolution field of an H3 index.
pub open spec fn raw_res(raw: u64) -> u64 {
    (raw >> 52u64) & 15u64
}

/// The index of the ancestor at the coarser resolution `res`: the
/// resolution field set to `res` and every digit finer than `res` unused.
pub open spec fn ancestor_bits(raw: u64, res: u64) -> u64 {
    (raw & !(15u64 << 52u64)) | (res << 52u64) | (u64::MAX >> ((64 - (15 - res) * 3) as u64))
}

/// The ancestor of a cell at resolution `res`; none where `res` is finer
/// than the cell, the cell itself at its own resolution.
pub open spec fn parent_at(raw: u64, res: u8) -> Option<u64> {
    if raw_res(raw) < res as u64 {
        None
    } else if raw_res(raw) == res as u64 {
        Some(raw)
    } else {
        Some(ancestor_bits(raw, res as u64))
    }
}

/// Whether `raw` is a cell index, tested bit by bit.
pub fn is_cell(raw: u64) -> (r: bool)
    ensures
        r == raw_is_cell(raw),
{
    (raw >> 63u64) == 0 && ((raw >> 59u64) & 15u64) == 1 && ((raw >> 45u64) & 127u64) < 122
}

/// Relies on hextree's `Cell::from_raw` (accepts every index that
/// `raw_is_cell` admits), `Cell::to_parent` (the ancestor by the bits of
/// `parent_at`) and `Cell::into_raw` (the index back).
#[verifier::external_body]
fn hextree_parent(raw: u64, res: u8) -> (r: Option<u64>)
    requires
        raw_is_cell(raw),
    ensures
        r == parent_at(raw, res),
{
    hextree::Cell::from_raw(raw).ok().and_then(|c| c.to_parent(res)).map(|p| p.into_raw())
}

/// The ancestor of a cell at resolution `res`, or `None` where `raw` is not
/// a cell index or `res` is finer than the cell.
pub fn parent_cell(raw: u64, res: u8) -> (r: Option<u64>)
    ensures
        r == (if raw_is_cell(raw) { parent_at(raw, res) } else { None }),
{
    if is_cell(raw) {
        hextree_parent(raw, res)
    } else {
        None
    }
}

/// How many descendants at resolution `res` the cell `raw` has, as h3o
/// counts them; `None` where `raw` is not a valid cell index or `res` is no
/// resolution.
pub uninterp spec fn children_count_of(raw: u64, res: u8) -> Option<u64>;

/// Relies on h3o's `Resolution::try_from(u8)`, `CellIndex::try_from(u64)`
/// and `CellIndex::children_count`: the exact number of descendants.
#[verifier::external_body]
pub(crate) fn children_count(raw: u64, res: u8) -> (r: Option<u64>)
    ensures
        r == children_count_of(raw, res),
{
    let res = h3o::Resolution::try_from(res).ok()?;
    h3o::CellIndex::try_from(raw).ok().map(|c| c.children_count(res))
}

} // verus!
