//! Laying applications out in one given order.
//!
//! The fixed applications come in ascending order of address, the flexible
//! ones in the order asked for. The cursor starts at the start address and
//! moves right; at each step the next flexible application is placed if it
//! fits before the next fixed one, else the next fixed one.

use crate::command_impl::reshuffle_apps::Index;
use vstd::prelude::*;

verus! {

/// A flexible application as the planner sees it: its index in the list
/// that is planned, and its size.
#[derive(Clone, Copy, Debug)]
pub struct FlexibleSlot {
    pub idx: usize,
    pub size: u64,
}

/// A fixed application as the planner sees it: its index in the list that
/// is planned, the address it must have, and its size.
#[derive(Clone, Copy, Debug)]
pub struct FixedSlot {
    pub idx: usize,
    pub address: u64,
    pub size: u64,
}

/// A layout and the number of padding bytes in it.
#[derive(Clone, Debug)]
pub struct Layout {
    pub entries: Vec<Index>,
    pub padding: u64,
}

/// How far a layout has come: how many flexible and fixed applications are
/// placed, where the next entry starts, the entries so far and the padding
/// in them.
pub struct Progress {
    pub flexible_placed: nat,
    pub fixed_placed: nat,
    pub cursor: u64,
    pub entries: Seq<Index>,
    pub padding: u64,
}

/// Whether `address` is a multiple of `page_size`. Only zero is a multiple
/// of zero.
pub open spec fn spec_page_aligned(address: u64, page_size: u64) -> bool {
    if page_size == 0 {
        address == 0
    } else {
        address % page_size == 0
    }
}

/// The number of bytes from `cursor` up to the next multiple of
/// `page_size`, or nothing if there is none: with a page size of zero, from
/// any cursor but zero.
pub open spec fn spec_gap_to_page(cursor: u64, page_size: u64) -> Option<u64> {
    if page_size == 0 {
        if cursor == 0 {
            Some(0)
        } else {
            None
        }
    } else if cursor % page_size == 0 {
        Some(0)
    } else {
        Some((page_size - cursor % page_size) as u64)
    }
}

/// Whether there is still an application to place.
pub open spec fn spec_unfinished(
    fixed: Seq<FixedSlot>,
    order: Seq<usize>,
    at: Progress,
) -> bool {
    at.flexible_placed < order.len() || at.fixed_placed < fixed.len()
}

/// How many applications are still to place.
pub open spec fn spec_left(fixed: Seq<FixedSlot>, order: Seq<usize>, at: Progress) -> nat {
    let flexible_left = if at.flexible_placed < order.len() {
        order.len() - at.flexible_placed
    } else {
        0
    };
    let fixed_left = if at.fixed_placed < fixed.len() {
        fixed.len() - at.fixed_placed
    } else {
        0
    };
    (flexible_left + fixed_left) as nat
}

/// Whether the next application to place is the next flexible one: there is
/// one, and either no fixed one is left or the flexible one ends no later
/// than the next fixed one starts, counted from the cursor.
pub open spec fn spec_flexible_next(
    fixed: Seq<FixedSlot>,
    flexible: Seq<FlexibleSlot>,
    order: Seq<usize>,
    at: Progress,
) -> bool {
    at.flexible_placed < order.len() && (at.fixed_placed >= fixed.len() || (
    order[at.flexible_placed as int] < flexible.len() && fixed[at.fixed_placed as int].address
        >= at.cursor && flexible[order[at.flexible_placed as int] as int].size
        <= fixed[at.fixed_placed as int].address - at.cursor))
}

/// The entries `entries` with a padding entry of `gap` bytes at `cursor`
/// added, if `gap` is not zero.
pub open spec fn spec_with_padding(entries: Seq<Index>, cursor: u64, gap: u64) -> Seq<Index> {
    if gap > 0 {
        entries.push(Index { idx: None, address: cursor, size: gap })
    } else {
        entries
    }
}

/// The layout after one more application is placed, or nothing if it
/// cannot be placed.
///
/// A flexible application is placed at the next page boundary, a fixed one
/// at its address; the gap before it becomes a padding entry. A fixed
/// application whose address lies before the cursor cannot be placed, nor
/// can an application that would end beyond the last address, nor one that
/// `order` names and `flexible` does not hold.
pub open spec fn spec_place_next(
    page_size: u64,
    fixed: Seq<FixedSlot>,
    flexible: Seq<FlexibleSlot>,
    order: Seq<usize>,
    at: Progress,
) -> Option<Progress> {
    if spec_flexible_next(fixed, flexible, order, at) {
        let which = order[at.flexible_placed as int];
        if which >= flexible.len() {
            None
        } else {
            let app = flexible[which as int];
            match spec_gap_to_page(at.cursor, page_size) {
                None => None,
                Some(gap) => if at.cursor + gap + app.size > u64::MAX || at.padding + gap
                    > u64::MAX {
                    None
                } else {
                    Some(
                        Progress {
                            flexible_placed: at.flexible_placed + 1,
                            fixed_placed: at.fixed_placed,
                            cursor: (at.cursor + gap + app.size) as u64,
                            entries: spec_with_padding(at.entries, at.cursor, gap).push(
                                Index {
                                    idx: Some(app.idx),
                                    address: (at.cursor + gap) as u64,
                                    size: app.size,
                                },
                            ),
                            padding: (at.padding + gap) as u64,
                        },
                    )
                },
            }
        }
    } else if at.fixed_placed < fixed.len() {
        let app = fixed[at.fixed_placed as int];
        if app.address < at.cursor {
            None
        } else {
            let gap = (app.address - at.cursor) as u64;
            if app.address + app.size > u64::MAX || at.padding + gap > u64::MAX {
                None
            } else {
                Some(
                    Progress {
                        flexible_placed: at.flexible_placed,
                        fixed_placed: at.fixed_placed + 1,
                        cursor: (app.address + app.size) as u64,
                        entries: spec_with_padding(at.entries, at.cursor, gap).push(
                            Index { idx: Some(app.idx), address: app.address, size: app.size },
                        ),
                        padding: (at.padding + gap) as u64,
                    },
                )
            }
        }
    } else {
        None
    }
}

/// The finished layout that `at` grows into, with its padding, or nothing
/// if some application cannot be placed.
pub open spec fn spec_place_rest(
    page_size: u64,
    fixed: Seq<FixedSlot>,
    flexible: Seq<FlexibleSlot>,
    order: Seq<usize>,
    at: Progress,
) -> Option<(Seq<Index>, u64)>
    decreases spec_left(fixed, order, at),
{
    if !spec_unfinished(fixed, order, at) {
        Some((at.entries, at.padding))
    } else {
        match spec_place_next(page_size, fixed, flexible, order, at) {
            None => None,
            Some(next) => spec_place_rest(page_size, fixed, flexible, order, next),
        }
    }
}

/// The layout with nothing placed yet.
pub open spec fn spec_start(start_address: u64) -> Progress {
    Progress {
        flexible_placed: 0,
        fixed_placed: 0,
        cursor: start_address,
        entries: Seq::empty(),
        padding: 0,
    }
}

/// The layout of the fixed applications `fixed`, in that order, and of the
/// flexible applications that `order` names, in that order, from
/// `start_address` on; with its padding. Nothing if there is no such
/// layout.
pub open spec fn spec_place_in_order(
    start_address: u64,
    page_size: u64,
    fixed: Seq<FixedSlot>,
    flexible: Seq<FlexibleSlot>,
    order: Seq<usize>,
) -> Option<(Seq<Index>, u64)> {
    spec_place_rest(page_size, fixed, flexible, order, spec_start(start_address))
}

/// What `spec_place_in_order` gives, for an executable layout.
pub open spec fn layout_view(r: Option<Layout>) -> Option<(Seq<Index>, u64)> {
    match r {
        Some(layout) => Some((layout.entries@, layout.padding)),
        None => None,
    }
}

/// Computes the number of bytes from `cursor` up to the next multiple of
/// `page_size`.
pub fn gap_to_page(cursor: u64, page_size: u64) -> (gap: Option<u64>)
    ensures
        gap == spec_gap_to_page(cursor, page_size),
{
    if page_size == 0 {
        if cursor == 0 {
            Some(0)
        } else {
            None
        }
    } else if cursor % page_size == 0 {
        Some(0)
    } else {
        Some(page_size - cursor % page_size)
    }
}

/// Lays out the fixed applications `fixed`, in that order, and the flexible
/// applications that `order` names, in that order, from `start_address` on.
pub fn place_in_order(
    start_address: u64,
    page_size: u64,
    fixed: &Vec<FixedSlot>,
    flexible: &Vec<FlexibleSlot>,
    order: &Vec<usize>,
) -> (r: Option<Layout>)
    ensures
        layout_view(r) == spec_place_in_order(
            start_address,
            page_size,
            fixed@,
            flexible@,
            order@,
        ),
{
    let mut entries: Vec<Index> = Vec::new();
    let mut padding: u64 = 0;
    let mut cursor: u64 = start_address;
    let mut flexible_placed: usize = 0;
    let mut fixed_placed: usize = 0;
    while flexible_placed < order.len() || fixed_placed < fixed.len()
        invariant
            flexible_placed <= order.len(),
            fixed_placed <= fixed.len(),
            spec_place_rest(
                page_size,
                fixed@,
                flexible@,
                order@,
                Progress {
                    flexible_placed: flexible_placed as nat,
                    fixed_placed: fixed_placed as nat,
                    cursor,
                    entries: entries@,
                    padding,
                },
            ) == spec_place_in_order(start_address, page_size, fixed@, flexible@, order@),
        decreases order.len() - flexible_placed + fixed.len() - fixed_placed,
    {
        let ghost at = Progress {
            flexible_placed: flexible_placed as nat,
            fixed_placed: fixed_placed as nat,
            cursor,
            entries: entries@,
            padding,
        };
        let flexible_next: bool = flexible_placed < order.len() && (fixed_placed >= fixed.len()
            || (order[flexible_placed] < flexible.len() && fixed[fixed_placed].address >= cursor
            && flexible[order[flexible_placed]].size <= fixed[fixed_placed].address - cursor));
        assert(flexible_next == spec_flexible_next(fixed@, flexible@, order@, at));
        if flexible_next {
            let which: usize = order[flexible_placed];
            if which >= flexible.len() {
                return None;
            }
            let app: FlexibleSlot = flexible[which];
            let gap: u64 = match gap_to_page(cursor, page_size) {
                None => {
                    return None;
                },
                Some(gap) => gap,
            };
            let start: u64 = match cursor.checked_add(gap) {
                None => {
                    return None;
                },
                Some(start) => start,
            };
            let end: u64 = match start.checked_add(app.size) {
                None => {
                    return None;
                },
                Some(end) => end,
            };
            let more: u64 = match padding.checked_add(gap) {
                None => {
                    return None;
                },
                Some(more) => more,
            };
            if gap > 0 {
                entries.push(Index { idx: None, address: cursor, size: gap });
            }
            entries.push(Index { idx: Some(app.idx), address: start, size: app.size });
            padding = more;
            cursor = end;
            flexible_placed = flexible_placed + 1;
        } else {
            let app: FixedSlot = fixed[fixed_placed];
            if app.address < cursor {
                return None;
            }
            let gap: u64 = app.address - cursor;
            let end: u64 = match app.address.checked_add(app.size) {
                None => {
                    return None;
                },
                Some(end) => end,
            };
            let more: u64 = match padding.checked_add(gap) {
                None => {
                    return None;
                },
                Some(more) => more,
            };
            if gap > 0 {
                entries.push(Index { idx: None, address: cursor, size: gap });
            }
            entries.push(Index { idx: Some(app.idx), address: app.address, size: app.size });
            padding = more;
            cursor = end;
            fixed_placed = fixed_placed + 1;
        }
    }
    Some(Layout { entries, padding })
}

} // verus!
