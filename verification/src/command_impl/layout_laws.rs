//! What holds of every layout that the planner makes.

use crate::command_impl::placement::{
    spec_flexible_next, spec_gap_to_page, spec_page_aligned, spec_place_in_order,
    spec_place_next, spec_place_rest, spec_left, spec_start, spec_unfinished, spec_with_padding,
    FixedSlot, FlexibleSlot, Progress,
};
use crate::command_impl::orders::is_order;
use crate::command_impl::reshuffle_apps::{
    spec_entry_binary, spec_packet_fits, spec_padding, spec_padding_header,
    spec_padding_length, spec_pkt, spec_better, spec_fixed_slots, spec_flexible_slots, spec_insert_by_address,
    spec_lacks_candidate, spec_plan, spec_search, spec_sort_by_address, Index, TockApp,
    ORDER_BUDGET,
};
use vstd::prelude::*;

verus! {

/// The sizes of `entries` added up.
pub open spec fn spec_total_size(entries: Seq<Index>) -> int
    decreases entries.len(),
{
    if entries.len() == 0 {
        0
    } else {
        spec_total_size(entries.drop_last()) + entries.last().size
    }
}

/// The sizes of the padding entries of `entries` added up.
pub open spec fn spec_padding_size(entries: Seq<Index>) -> int
    decreases entries.len(),
{
    if entries.len() == 0 {
        0
    } else if entries.last().idx is None {
        spec_padding_size(entries.drop_last()) + entries.last().size
    } else {
        spec_padding_size(entries.drop_last())
    }
}

/// The sizes of the flexible applications that the first `placed` places of
/// `order` name, added up.
pub open spec fn spec_flexible_sum(
    flexible: Seq<FlexibleSlot>,
    order: Seq<usize>,
    placed: nat,
) -> int
    decreases placed,
{
    if placed == 0 {
        0
    } else {
        spec_flexible_sum(flexible, order, (placed - 1) as nat) + flexible[order[placed
            - 1] as int].size
    }
}

/// The sizes of the first `placed` fixed applications added up.
pub open spec fn spec_fixed_sum(fixed: Seq<FixedSlot>, placed: nat) -> int
    decreases placed,
{
    if placed == 0 {
        0
    } else {
        spec_fixed_sum(fixed, (placed - 1) as nat) + fixed[placed - 1].size
    }
}

/// Whether `entry` stands for one of the flexible applications that the
/// first `placed` places of `order` name, at a page boundary.
pub open spec fn spec_from_flexible(
    entry: Index,
    page_size: u64,
    flexible: Seq<FlexibleSlot>,
    order: Seq<usize>,
    placed: nat,
) -> bool {
    exists|k: int|
        0 <= k < placed && (#[trigger] order[k]) < flexible.len() && entry.idx == Some(
            flexible[order[k] as int].idx,
        ) && entry.size == flexible[order[k] as int].size && spec_page_aligned(
            entry.address,
            page_size,
        )
}

/// Whether `entry` stands for one of the first `placed` fixed applications,
/// at its address.
pub open spec fn spec_from_fixed(entry: Index, fixed: Seq<FixedSlot>, placed: nat) -> bool {
    exists|k: int|
        0 <= k < placed && entry.idx == Some((#[trigger] fixed[k]).idx) && entry.size
            == fixed[k].size && entry.address == fixed[k].address
}

/// Whether the entries `entries` lie one behind the other from
/// `start_address` on: each starts where the one before it ends.
pub open spec fn spec_contiguous(start_address: u64, entries: Seq<Index>) -> bool {
    forall|i: int|
        0 <= i < entries.len() ==> entries[i].address == start_address
            + #[trigger] spec_total_size(entries.take(i))
}

/// What holds of a layout while it grows.
///
/// The cursor is where the entries end, and they lie one behind the other
/// from the start address on. The padding counted is the padding that
/// stands there, no padding entry is empty, and the entries are as long
/// together as the applications placed and the padding. Every other entry
/// stands for a flexible application at a page boundary or for a fixed
/// application at its address.
pub open spec fn spec_sound(
    start_address: u64,
    page_size: u64,
    fixed: Seq<FixedSlot>,
    flexible: Seq<FlexibleSlot>,
    order: Seq<usize>,
    at: Progress,
) -> bool {
    &&& at.flexible_placed <= order.len()
    &&& at.fixed_placed <= fixed.len()
    &&& at.cursor == start_address + spec_total_size(at.entries)
    &&& spec_contiguous(start_address, at.entries)
    &&& at.padding == spec_padding_size(at.entries)
    &&& spec_total_size(at.entries) == spec_flexible_sum(flexible, order, at.flexible_placed)
        + spec_fixed_sum(fixed, at.fixed_placed) + at.padding
    &&& forall|i: int|
        0 <= i < at.entries.len() && (#[trigger] at.entries[i]).idx is None ==> at.entries[i].size
            >= 1
    &&& forall|i: int|
        0 <= i < at.entries.len() && (#[trigger] at.entries[i]).idx is Some
            ==> spec_from_flexible(
            at.entries[i],
            page_size,
            flexible,
            order,
            at.flexible_placed,
        ) || spec_from_fixed(at.entries[i], fixed, at.fixed_placed)
}

/// What holds of a finished layout: what holds while it grows, with every
/// application placed.
pub open spec fn spec_layout_sound(
    start_address: u64,
    page_size: u64,
    fixed: Seq<FixedSlot>,
    flexible: Seq<FlexibleSlot>,
    order: Seq<usize>,
    layout: (Seq<Index>, u64),
) -> bool {
    spec_sound(
        start_address,
        page_size,
        fixed,
        flexible,
        order,
        Progress {
            flexible_placed: order.len(),
            fixed_placed: fixed.len(),
            cursor: (start_address + spec_total_size(layout.0)) as u64,
            entries: layout.0,
            padding: layout.1,
        },
    )
}

proof fn lemma_push_sizes(entries: Seq<Index>, entry: Index)
    ensures
        spec_total_size(entries.push(entry)) == spec_total_size(entries) + entry.size,
        spec_padding_size(entries.push(entry)) == spec_padding_size(entries) + if entry.idx
            is None {
            entry.size as int
        } else {
            0
        },
{
    assert(entries.push(entry).drop_last() =~= entries);
}

proof fn lemma_push_contiguous(start_address: u64, entries: Seq<Index>, entry: Index)
    requires
        spec_contiguous(start_address, entries),
        entry.address == start_address + spec_total_size(entries),
    ensures
        spec_contiguous(start_address, entries.push(entry)),
{
    let longer = entries.push(entry);
    assert forall|i: int| 0 <= i < longer.len() implies longer[i].address == start_address
        + #[trigger] spec_total_size(longer.take(i)) by {
        if i < entries.len() {
            assert(longer.take(i) =~= entries.take(i));
            assert(entries[i].address == start_address + spec_total_size(entries.take(i)));
            assert(longer[i] == entries[i]);
        } else {
            assert(longer.take(i) =~= entries);
        }
    }
}

/// The gap to the next page boundary ends at a page boundary.
pub proof fn lemma_gap_reaches_page(cursor: u64, page_size: u64)
    requires
        spec_gap_to_page(cursor, page_size) is Some,
        cursor + spec_gap_to_page(cursor, page_size)->Some_0 <= u64::MAX,
    ensures
        spec_page_aligned(
            (cursor + spec_gap_to_page(cursor, page_size)->Some_0) as u64,
            page_size,
        ),
        page_size > 0 ==> spec_gap_to_page(cursor, page_size)->Some_0 < page_size,
{
    if page_size > 0 && cursor % page_size != 0 {
        let c = cursor as int;
        let p = page_size as int;
        assert((c + (p - c % p)) % p == 0) by (nonlinear_arith)
            requires
                p > 0,
                c >= 0,
        {
            vstd::arithmetic::div_mod::lemma_fundamental_div_mod(c, p);
            vstd::arithmetic::div_mod::lemma_mod_multiples_basic(c / p + 1, p);
            assert(c + (p - c % p) == (c / p + 1) * p) by (nonlinear_arith)
                requires
                    c == p * (c / p) + c % p,
            ;
        }
    }
}

/// Placing one more application keeps a layout sound.
#[verifier::rlimit(40)]
proof fn lemma_place_next_sound(
    start_address: u64,
    page_size: u64,
    fixed: Seq<FixedSlot>,
    flexible: Seq<FlexibleSlot>,
    order: Seq<usize>,
    at: Progress,
)
    requires
        spec_sound(start_address, page_size, fixed, flexible, order, at),
        spec_unfinished(fixed, order, at),
        spec_place_next(page_size, fixed, flexible, order, at) is Some,
    ensures
        spec_sound(
            start_address,
            page_size,
            fixed,
            flexible,
            order,
            spec_place_next(page_size, fixed, flexible, order, at)->Some_0,
        ),
{
    let next = spec_place_next(page_size, fixed, flexible, order, at)->Some_0;
    let gap: u64 = (next.padding - at.padding) as u64;
    let padded = spec_with_padding(at.entries, at.cursor, gap);
    let app = next.entries.last();
    assert(next.entries == padded.push(app));
    let pad = Index { idx: None, address: at.cursor, size: gap };
    if gap > 0 {
        lemma_push_sizes(at.entries, pad);
        lemma_push_contiguous(start_address, at.entries, pad);
    }
    lemma_push_sizes(padded, app);
    lemma_push_contiguous(start_address, padded, app);
    if spec_flexible_next(fixed, flexible, order, at) {
        let k = at.flexible_placed as int;
        assert(order[k] < flexible.len());
        lemma_gap_reaches_page(at.cursor, page_size);
        assert(spec_page_aligned(app.address, page_size));
        assert(spec_from_flexible(app, page_size, flexible, order, next.flexible_placed));
    } else {
        let k = at.fixed_placed as int;
        assert(app.idx == Some(fixed[k].idx));
        assert(spec_from_fixed(app, fixed, next.fixed_placed));
    }
    assert forall|i: int|
        0 <= i < next.entries.len() && (#[trigger] next.entries[i]).idx is Some implies spec_from_flexible(
        next.entries[i],
        page_size,
        flexible,
        order,
        next.flexible_placed,
    ) || spec_from_fixed(next.entries[i], fixed, next.fixed_placed) by {
        if i < at.entries.len() {
            assert(next.entries[i] == at.entries[i]);
            let entry = at.entries[i];
            if spec_from_flexible(entry, page_size, flexible, order, at.flexible_placed) {
                let k = choose|k: int|
                    0 <= k < at.flexible_placed && (#[trigger] order[k]) < flexible.len()
                        && entry.idx == Some(flexible[order[k] as int].idx) && entry.size
                        == flexible[order[k] as int].size && spec_page_aligned(
                        entry.address,
                        page_size,
                    );
                assert(order[k] < flexible.len());
                assert(spec_from_flexible(
                    entry,
                    page_size,
                    flexible,
                    order,
                    next.flexible_placed,
                ));
            } else {
                let k = choose|k: int|
                    0 <= k < at.fixed_placed && entry.idx == Some((#[trigger] fixed[k]).idx)
                        && entry.size == fixed[k].size && entry.address == fixed[k].address;
                assert(entry.idx == Some(fixed[k].idx));
                assert(spec_from_fixed(entry, fixed, next.fixed_placed));
            }
        } else if i == next.entries.len() - 1 {
        } else {
            assert(next.entries[i] == pad);
        }
    }
    assert forall|i: int|
        0 <= i < next.entries.len() && (#[trigger] next.entries[i]).idx is None implies next.entries[i].size
        >= 1 by {
        if i < at.entries.len() {
            assert(next.entries[i] == at.entries[i]);
        }
    }
}

/// A layout that is sound where it stands is sound when it is finished.
proof fn lemma_place_rest_sound(
    start_address: u64,
    page_size: u64,
    fixed: Seq<FixedSlot>,
    flexible: Seq<FlexibleSlot>,
    order: Seq<usize>,
    at: Progress,
)
    requires
        spec_sound(start_address, page_size, fixed, flexible, order, at),
        spec_place_rest(page_size, fixed, flexible, order, at) is Some,
    ensures
        spec_layout_sound(
            start_address,
            page_size,
            fixed,
            flexible,
            order,
            spec_place_rest(page_size, fixed, flexible, order, at)->Some_0,
        ),
    decreases spec_left(fixed, order, at),
{
    if spec_unfinished(fixed, order, at) {
        lemma_place_next_sound(start_address, page_size, fixed, flexible, order, at);
        lemma_place_rest_sound(
            start_address,
            page_size,
            fixed,
            flexible,
            order,
            spec_place_next(page_size, fixed, flexible, order, at)->Some_0,
        );
    }
}

/// Every layout that is made for an order is sound: its entries lie one
/// behind the other from the start address on, its padding entries are not
/// empty and add up to the padding counted, every other entry stands for a
/// flexible application at a page boundary or for a fixed application at
/// its address, and the whole is as long as the applications and the
/// padding together.
pub proof fn lemma_layout_sound(
    start_address: u64,
    page_size: u64,
    fixed: Seq<FixedSlot>,
    flexible: Seq<FlexibleSlot>,
    order: Seq<usize>,
)
    requires
        spec_place_in_order(start_address, page_size, fixed, flexible, order) is Some,
    ensures
        spec_layout_sound(
            start_address,
            page_size,
            fixed,
            flexible,
            order,
            spec_place_in_order(start_address, page_size, fixed, flexible, order)->Some_0,
        ),
{
    let at = spec_start(start_address);
    assert(at.entries.len() == 0);
    lemma_place_rest_sound(start_address, page_size, fixed, flexible, order, at);
}

/// In entries that lie one behind the other, an entry that is not empty
/// starts before every entry behind it: the addresses rise.
pub proof fn lemma_contiguous_addresses_rise(
    start_address: u64,
    entries: Seq<Index>,
    earlier: int,
    later: int,
)
    requires
        spec_contiguous(start_address, entries),
        0 <= earlier < later < entries.len(),
    ensures
        entries[earlier].address + entries[earlier].size <= entries[later].address,
        entries[earlier].size > 0 ==> entries[earlier].address < entries[later].address,
    decreases later - earlier,
{
    assert(entries.take(later).drop_last() =~= entries.take(later - 1));
    assert(entries.take(later).last() == entries[later - 1]);
    assert(entries[later].address == start_address + spec_total_size(entries.take(later)));
    assert(entries[later - 1].address == start_address + spec_total_size(
        entries.take(later - 1),
    ));
    if earlier < later - 1 {
        lemma_contiguous_addresses_rise(start_address, entries, earlier, later - 1);
    }
}

/// The sizes of `apps` added up.
pub open spec fn spec_apps_size(apps: Seq<TockApp>) -> int
    decreases apps.len(),
{
    if apps.len() == 0 {
        0
    } else {
        spec_apps_size(apps.drop_last()) + apps.last().spec_size()
    }
}

/// The sizes of the first `count` flexible applications added up.
pub open spec fn spec_flexible_total(flexible: Seq<FlexibleSlot>, count: nat) -> int
    decreases count,
{
    if count == 0 {
        0
    } else {
        spec_flexible_total(flexible, (count - 1) as nat) + flexible[count - 1].size
    }
}

/// Whether `entries` is a valid layout of `apps` from `start_address` on.
///
/// The entries lie one behind the other from the start address on. A
/// padding entry is not empty. Every other entry names an application, has
/// its size, and stands at a page boundary if the application is flexible
/// and at the application's first candidate address if it is fixed. The
/// whole is as long as all the applications and the padding together, and
/// every application is named by exactly one entry.
pub open spec fn spec_valid_layout(
    start_address: u64,
    page_size: u64,
    apps: Seq<TockApp>,
    entries: Seq<Index>,
) -> bool {
    &&& spec_contiguous(start_address, entries)
    &&& forall|i: int|
        0 <= i < entries.len() && (#[trigger] entries[i]).idx is None ==> entries[i].size >= 1
    &&& forall|i: int|
        0 <= i < entries.len() ==> ((#[trigger] entries[i]).idx matches Some(k) ==> k
            < apps.len() && entries[i].size == apps[k as int].spec_size() && match apps[k as int] {
            TockApp::Flexible(_) => spec_page_aligned(entries[i].address, page_size),
            TockApp::Fixed(app) => app.candidate_addresses@.len() > 0 && entries[i].address
                == app.candidate_addresses@[0],
        })
    &&& spec_total_size(entries) == spec_apps_size(apps) + spec_padding_size(entries)
    &&& spec_each_app_once(apps.len(), entries)
}

/// Whether one of `entries` names the application of index `id`.
pub open spec fn spec_has_entry(entries: Seq<Index>, id: usize) -> bool {
    exists|i: int| 0 <= i < entries.len() && (#[trigger] entries[i]).idx == Some(id)
}

/// Whether no two of `entries` name the same application.
pub open spec fn spec_no_app_twice(entries: Seq<Index>) -> bool {
    forall|i: int, j: int|
        0 <= i < j < entries.len() && (#[trigger] entries[i]).idx is Some && (
        #[trigger] entries[j]).idx is Some ==> entries[i].idx != entries[j].idx
}

/// Whether `entries` names each of the applications `0..count` exactly
/// once: each is named, and none is named twice.
pub open spec fn spec_each_app_once(count: nat, entries: Seq<Index>) -> bool {
    &&& spec_no_app_twice(entries)
    &&& forall|position: int|
        0 <= position < count ==> #[trigger] spec_has_entry(entries, position as usize)
}

/// Whether `slot` stands for a flexible application of `apps`.
pub open spec fn spec_is_flexible_of(apps: Seq<TockApp>, slot: FlexibleSlot) -> bool {
    slot.idx < apps.len() && match apps[slot.idx as int] {
        TockApp::Flexible(app) => app.size == slot.size,
        TockApp::Fixed(_) => false,
    }
}

/// Whether `slot` stands for a fixed application of `apps`, at the first of
/// its candidate addresses.
pub open spec fn spec_is_fixed_of(apps: Seq<TockApp>, slot: FixedSlot) -> bool {
    slot.idx < apps.len() && match apps[slot.idx as int] {
        TockApp::Flexible(_) => false,
        TockApp::Fixed(app) => app.size == slot.size && app.candidate_addresses@.len() > 0
            && app.candidate_addresses@[0] == slot.address,
    }
}

/// Whether every slot of `flexible` stands for a flexible application of
/// `apps`.
pub open spec fn spec_flexible_of(apps: Seq<TockApp>, flexible: Seq<FlexibleSlot>) -> bool {
    forall|j: int| 0 <= j < flexible.len() ==> spec_is_flexible_of(apps, #[trigger] flexible[j])
}

/// Whether every slot of `fixed` stands for a fixed application of `apps`.
pub open spec fn spec_fixed_of(apps: Seq<TockApp>, fixed: Seq<FixedSlot>) -> bool {
    forall|j: int| 0 <= j < fixed.len() ==> spec_is_fixed_of(apps, #[trigger] fixed[j])
}

/// The slots made of `apps` stand for its applications, and are as large
/// together as they are.
pub proof fn lemma_slots_of_apps(apps: Seq<TockApp>)
    requires
        apps.len() <= usize::MAX,
        !spec_lacks_candidate(apps),
    ensures
        spec_flexible_of(apps, spec_flexible_slots(apps)),
        spec_fixed_of(apps, spec_fixed_slots(apps)),
        spec_flexible_total(spec_flexible_slots(apps), spec_flexible_slots(apps).len())
            + spec_fixed_sum(spec_fixed_slots(apps), spec_fixed_slots(apps).len())
            == spec_apps_size(apps),
    decreases apps.len(),
{
    if apps.len() > 0 {
        let before = apps.drop_last();
        assert(!spec_lacks_candidate(before)) by {
            if spec_lacks_candidate(before) {
                let i = choose|i: int|
                    0 <= i < before.len() && (#[trigger] before[i] matches TockApp::Fixed(app)
                        && app.candidate_addresses@.len() == 0);
                assert(apps[i] == before[i]);
            }
        }
        lemma_slots_of_apps(before);
        let flexible = spec_flexible_slots(apps);
        let fixed = spec_fixed_slots(apps);
        let flexible_before = spec_flexible_slots(before);
        let fixed_before = spec_fixed_slots(before);
        let last = apps[apps.len() - 1];
        assert(last == apps.last());
        assert forall|slot: FlexibleSlot| spec_is_flexible_of(before, slot) implies spec_is_flexible_of(
            apps,
            slot,
        ) by {
            assert(apps[slot.idx as int] == before[slot.idx as int]);
        }
        assert forall|slot: FixedSlot| spec_is_fixed_of(before, slot) implies spec_is_fixed_of(
            apps,
            slot,
        ) by {
            assert(apps[slot.idx as int] == before[slot.idx as int]);
        }
        match last {
            TockApp::Flexible(app) => {
                let slot = FlexibleSlot { idx: (apps.len() - 1) as usize, size: app.size };
                assert(flexible == flexible_before.push(slot));
                assert(fixed == fixed_before);
                assert(spec_is_flexible_of(apps, slot));
                assert forall|j: int| 0 <= j < flexible.len() implies spec_is_flexible_of(
                    apps,
                    #[trigger] flexible[j],
                ) by {
                    if j < flexible_before.len() {
                        assert(flexible[j] == flexible_before[j]);
                    }
                }
                assert forall|j: int| 0 <= j < fixed.len() implies spec_is_fixed_of(
                    apps,
                    #[trigger] fixed[j],
                ) by {
                    assert(fixed[j] == fixed_before[j]);
                }
                assert(flexible.drop_last() =~= flexible_before);
                lemma_flexible_total_of_prefix(
                    flexible,
                    flexible_before,
                    flexible_before.len(),
                );
            },
            TockApp::Fixed(app) => {
                let slot = FixedSlot {
                    idx: (apps.len() - 1) as usize,
                    address: app.candidate_addresses@[0],
                    size: app.size,
                };
                assert(fixed == fixed_before.push(slot));
                assert(flexible == flexible_before);
                assert(app.candidate_addresses@.len() > 0);
                assert(spec_is_fixed_of(apps, slot));
                assert forall|j: int| 0 <= j < flexible.len() implies spec_is_flexible_of(
                    apps,
                    #[trigger] flexible[j],
                ) by {
                    assert(flexible[j] == flexible_before[j]);
                }
                assert forall|j: int| 0 <= j < fixed.len() implies spec_is_fixed_of(
                    apps,
                    #[trigger] fixed[j],
                ) by {
                    if j < fixed_before.len() {
                        assert(fixed[j] == fixed_before[j]);
                    }
                }
                assert(fixed.drop_last() =~= fixed_before);
                lemma_fixed_sum_of_prefix(fixed, fixed_before, fixed_before.len());
            },
        }
    }
}

/// The sum of the first flexible applications looks at no others.
proof fn lemma_flexible_total_of_prefix(a: Seq<FlexibleSlot>, b: Seq<FlexibleSlot>, count: nat)
    requires
        forall|j: int| 0 <= j < count ==> a[j] == b[j],
    ensures
        spec_flexible_total(a, count) == spec_flexible_total(b, count),
    decreases count,
{
    if count > 0 {
        lemma_flexible_total_of_prefix(a, b, (count - 1) as nat);
    }
}

/// The sum of the first fixed applications looks at no others.
proof fn lemma_fixed_sum_of_prefix(a: Seq<FixedSlot>, b: Seq<FixedSlot>, placed: nat)
    requires
        forall|j: int| 0 <= j < placed ==> a[j] == b[j],
    ensures
        spec_fixed_sum(a, placed) == spec_fixed_sum(b, placed),
    decreases placed,
{
    if placed > 0 {
        lemma_fixed_sum_of_prefix(a, b, (placed - 1) as nat);
    }
}

/// Putting a slot into a list adds the slot: the list grows by one, holds
/// what it held and the slot, and its sizes grow by the size of the slot.
pub proof fn lemma_insert_by_address(sorted: Seq<FixedSlot>, slot: FixedSlot)
    ensures
        spec_insert_by_address(sorted, slot).len() == sorted.len() + 1,
        forall|j: int|
            0 <= j < sorted.len() + 1 ==> (#[trigger] spec_insert_by_address(sorted, slot)[j])
                == slot || exists|k: int|
                0 <= k < sorted.len() && spec_insert_by_address(sorted, slot)[j]
                    == #[trigger] sorted[k],
        spec_fixed_sum(spec_insert_by_address(sorted, slot), (sorted.len() + 1) as nat)
            == spec_fixed_sum(sorted, sorted.len()) + slot.size,
    decreases sorted.len(),
{
    let longer = spec_insert_by_address(sorted, slot);
    if sorted.len() == 0 {
        assert(longer =~= seq![slot]);
        reveal_with_fuel(spec_fixed_sum, 2);
    } else if sorted.last().address <= slot.address {
        assert forall|j: int| 0 <= j < sorted.len() + 1 implies (#[trigger] longer[j]) == slot
            || exists|k: int| 0 <= k < sorted.len() && longer[j] == #[trigger] sorted[k] by {
            if j < sorted.len() {
                assert(longer[j] == sorted[j]);
            }
        }
        lemma_fixed_sum_of_prefix(longer, sorted, sorted.len());
    } else {
        let shorter = sorted.drop_last();
        lemma_insert_by_address(shorter, slot);
        let inner = spec_insert_by_address(shorter, slot);
        assert forall|j: int| 0 <= j < sorted.len() + 1 implies (#[trigger] longer[j]) == slot
            || exists|k: int| 0 <= k < sorted.len() && longer[j] == #[trigger] sorted[k] by {
            if j < sorted.len() {
                assert(longer[j] == inner[j]);
                if inner[j] != slot {
                    let k = choose|k: int| 0 <= k < shorter.len() && inner[j] == #[trigger] shorter[k];
                    assert(sorted[k] == shorter[k]);
                }
            } else {
                assert(longer[j] == sorted[sorted.len() - 1]);
            }
        }
        lemma_fixed_sum_of_prefix(longer, inner, sorted.len());
        lemma_fixed_sum_of_prefix(sorted, shorter, shorter.len());
    }
}

/// Sorting keeps the slots: the sorted list is as long, each of its slots
/// is one of those sorted, and the sizes add up to the same.
pub proof fn lemma_sort_keeps_slots(slots: Seq<FixedSlot>)
    ensures
        spec_sort_by_address(slots).len() == slots.len(),
        forall|j: int|
            0 <= j < slots.len() ==> exists|k: int|
                0 <= k < slots.len() && (#[trigger] spec_sort_by_address(slots)[j])
                    == #[trigger] slots[k],
        spec_fixed_sum(spec_sort_by_address(slots), slots.len()) == spec_fixed_sum(
            slots,
            slots.len(),
        ),
    decreases slots.len(),
{
    if slots.len() > 0 {
        let before = slots.drop_last();
        let sorted_before = spec_sort_by_address(before);
        let sorted = spec_sort_by_address(slots);
        lemma_sort_keeps_slots(before);
        lemma_insert_by_address(sorted_before, slots.last());
        assert forall|j: int| 0 <= j < slots.len() implies exists|k: int|
            0 <= k < slots.len() && (#[trigger] sorted[j]) == #[trigger] slots[k] by {
            if sorted[j] == slots.last() {
                assert(sorted[j] == slots[slots.len() - 1]);
            } else {
                let m = choose|m: int|
                    0 <= m < sorted_before.len() && sorted[j] == #[trigger] sorted_before[m];
                let k = choose|k: int|
                    0 <= k < before.len() && (#[trigger] sorted_before[m]) == #[trigger] before[k];
                assert(slots[k] == before[k]);
            }
        }
        lemma_fixed_sum_of_prefix(slots, before, before.len());
    }
}

/// Sorting puts the slots in ascending order of address.
pub proof fn lemma_sort_ascends(slots: Seq<FixedSlot>)
    ensures
        forall|i: int, j: int|
            0 <= i < j < spec_sort_by_address(slots).len() ==> (#[trigger] spec_sort_by_address(
                slots,
            )[i]).address <= (#[trigger] spec_sort_by_address(slots)[j]).address,
    decreases slots.len(),
{
    if slots.len() > 0 {
        lemma_sort_ascends(slots.drop_last());
        lemma_insert_ascends(spec_sort_by_address(slots.drop_last()), slots.last());
    }
}

proof fn lemma_insert_ascends(sorted: Seq<FixedSlot>, slot: FixedSlot)
    requires
        forall|i: int, j: int|
            0 <= i < j < sorted.len() ==> (#[trigger] sorted[i]).address
                <= (#[trigger] sorted[j]).address,
    ensures
        forall|i: int, j: int|
            0 <= i < j < spec_insert_by_address(sorted, slot).len()
                ==> (#[trigger] spec_insert_by_address(sorted, slot)[i]).address
                <= (#[trigger] spec_insert_by_address(sorted, slot)[j]).address,
    decreases sorted.len(),
{
    let longer = spec_insert_by_address(sorted, slot);
    lemma_insert_by_address(sorted, slot);
    if sorted.len() > 0 && sorted.last().address > slot.address {
        let shorter = sorted.drop_last();
        let inner = spec_insert_by_address(shorter, slot);
        lemma_insert_ascends(shorter, slot);
        lemma_insert_by_address(shorter, slot);
        assert forall|i: int, j: int| 0 <= i < j < longer.len() implies (#[trigger] longer[i]).address
            <= (#[trigger] longer[j]).address by {
            if j < sorted.len() {
                assert(longer[i] == inner[i] && longer[j] == inner[j]);
            } else {
                assert(longer[i] == inner[i]);
                if inner[i] != slot {
                    let k = choose|k: int| 0 <= k < shorter.len() && inner[i] == #[trigger] shorter[k];
                    assert(sorted[k] == shorter[k]);
                    if k < sorted.len() - 1 {
                        assert(sorted[k].address <= sorted[sorted.len() - 1].address);
                    }
                }
            }
        }
    } else if sorted.len() > 0 {
        assert forall|i: int, j: int| 0 <= i < j < longer.len() implies (#[trigger] longer[i]).address
            <= (#[trigger] longer[j]).address by {
            assert(longer[i] == sorted[i]);
            if j < sorted.len() {
                assert(longer[j] == sorted[j]);
            } else if i < sorted.len() - 1 {
                assert(sorted[i].address <= sorted[sorted.len() - 1].address);
            }
        }
    }
}

/// Whether one of the first `count` places of `order` names `position`.
pub open spec fn spec_named(order: Seq<usize>, count: nat, position: int) -> bool {
    exists|k: int| 0 <= k < count && #[trigger] order[k] == position
}

/// The weights of the positions that the first `count` places of `order`
/// name, added up.
pub open spec fn spec_named_weight(weights: Seq<int>, order: Seq<usize>, count: nat) -> int
    decreases count,
{
    if count == 0 {
        0
    } else {
        spec_named_weight(weights, order, (count - 1) as nat) + weights[order[count - 1] as int]
    }
}

/// The weights of those of the first `n` positions that none of the first
/// `count` places of `order` names, added up.
pub open spec fn spec_unnamed_weight(
    weights: Seq<int>,
    order: Seq<usize>,
    count: nat,
    n: nat,
) -> int
    decreases n,
{
    if n == 0 {
        0
    } else {
        spec_unnamed_weight(weights, order, count, (n - 1) as nat) + if spec_named(
            order,
            count,
            n - 1,
        ) {
            0
        } else {
            weights[n - 1]
        }
    }
}

/// The weights of the first `n` positions added up.
pub open spec fn spec_weight(weights: Seq<int>, n: nat) -> int
    decreases n,
{
    if n == 0 {
        0
    } else {
        spec_weight(weights, (n - 1) as nat) + weights[n - 1]
    }
}

proof fn lemma_unnamed_at_first(weights: Seq<int>, order: Seq<usize>, n: nat)
    ensures
        spec_unnamed_weight(weights, order, 0, n) == spec_weight(weights, n),
    decreases n,
{
    if n > 0 {
        lemma_unnamed_at_first(weights, order, (n - 1) as nat);
    }
}

proof fn lemma_unnamed_step(weights: Seq<int>, order: Seq<usize>, count: nat, n: nat)
    requires
        count < order.len(),
        !spec_named(order, count, order[count as int] as int),
    ensures
        spec_unnamed_weight(weights, order, count + 1, n) == spec_unnamed_weight(
            weights,
            order,
            count,
            n,
        ) - if order[count as int] < n {
            weights[order[count as int] as int]
        } else {
            0
        },
    decreases n,
{
    if n > 0 {
        lemma_unnamed_step(weights, order, count, (n - 1) as nat);
        let position = n - 1;
        if spec_named(order, count, position) {
            let k = choose|k: int| 0 <= k < count && #[trigger] order[k] == position;
            assert(order[k] == position);
            assert(spec_named(order, count + 1, position));
        } else if order[count as int] == position {
            assert(spec_named(order, count + 1, position));
        } else {
            if spec_named(order, count + 1, position) {
                let k = choose|k: int| 0 <= k < count + 1 && #[trigger] order[k] == position;
                assert(k < count);
                assert(order[k] == position);
                assert(spec_named(order, count, position));
            }
        }
    }
}

/// What the places of an order name and what they do not name make up the
/// whole, when no position is named twice.
proof fn lemma_named_and_unnamed(weights: Seq<int>, order: Seq<usize>, count: nat, n: nat)
    requires
        count <= order.len(),
        forall|k: int| 0 <= k < count ==> order[k] < n,
        forall|a: int, b: int| 0 <= a < b < count ==> order[a] != order[b],
    ensures
        spec_named_weight(weights, order, count) + spec_unnamed_weight(weights, order, count, n)
            == spec_weight(weights, n),
    decreases count,
{
    if count == 0 {
        lemma_unnamed_at_first(weights, order, n);
    } else {
        let before = (count - 1) as nat;
        lemma_named_and_unnamed(weights, order, before, n);
        assert(!spec_named(order, before, order[before as int] as int)) by {
            if spec_named(order, before, order[before as int] as int) {
                let k = choose|k: int|
                    0 <= k < before && #[trigger] order[k] == order[before as int] as int;
                assert(order[k] != order[before as int]);
            }
        }
        lemma_unnamed_step(weights, order, before, n);
    }
}

proof fn lemma_unnamed_bound(
    weights: Seq<int>,
    order: Seq<usize>,
    count: nat,
    n: nat,
    position: int,
)
    requires
        forall|j: int| 0 <= j < n ==> weights[j] >= 0,
    ensures
        spec_unnamed_weight(weights, order, count, n) >= 0,
        0 <= position < n && !spec_named(order, count, position) ==> spec_unnamed_weight(
            weights,
            order,
            count,
            n,
        ) >= weights[position],
    decreases n,
{
    if n > 0 {
        lemma_unnamed_bound(weights, order, count, (n - 1) as nat, position);
    }
}

proof fn lemma_ones(order: Seq<usize>, count: nat, n: nat)
    requires
        forall|k: int| 0 <= k < count ==> order[k] < n,
    ensures
        spec_named_weight(Seq::new(n, |j: int| 1int), order, count) == count,
        count <= n ==> spec_weight(Seq::new(n, |j: int| 1int), count) == count,
    decreases count,
{
    if count > 0 {
        lemma_ones(order, (count - 1) as nat, n);
    }
}

/// An order of `n` positions names every one of them.
pub proof fn lemma_order_names_all(order: Seq<usize>, n: nat)
    requires
        is_order(order, n),
    ensures
        forall|position: int| 0 <= position < n ==> spec_named(order, n, position),
{
    let ones = Seq::new(n, |j: int| 1int);
    lemma_named_and_unnamed(ones, order, n, n);
    lemma_ones(order, n, n);
    assert forall|position: int| 0 <= position < n implies spec_named(order, n, position) by {
        lemma_unnamed_bound(ones, order, n, n, position);
    }
}

proof fn lemma_unnamed_nothing(weights: Seq<int>, order: Seq<usize>, count: nat, n: nat)
    requires
        forall|position: int| 0 <= position < n ==> spec_named(order, count, position),
    ensures
        spec_unnamed_weight(weights, order, count, n) == 0,
    decreases n,
{
    if n > 0 {
        lemma_unnamed_nothing(weights, order, count, (n - 1) as nat);
    }
}

/// The flexible applications are as large together in any order as in the
/// order in which they stand.
pub proof fn lemma_order_keeps_size(flexible: Seq<FlexibleSlot>, order: Seq<usize>)
    requires
        is_order(order, flexible.len()),
    ensures
        spec_flexible_sum(flexible, order, order.len()) == spec_flexible_total(
            flexible,
            flexible.len(),
        ),
{
    let n = flexible.len();
    let weights = Seq::new(n, |j: int| flexible[j].size as int);
    lemma_order_names_all(order, n);
    lemma_named_and_unnamed(weights, order, n, n);
    lemma_unnamed_nothing(weights, order, n, n);
    lemma_flexible_weights(flexible, order, n, n);
}

proof fn lemma_flexible_weights(
    flexible: Seq<FlexibleSlot>,
    order: Seq<usize>,
    count: nat,
    upto: nat,
)
    requires
        count <= order.len(),
        upto <= flexible.len(),
        forall|k: int| 0 <= k < count ==> order[k] < flexible.len(),
    ensures
        spec_flexible_sum(flexible, order, count) == spec_named_weight(
            Seq::new(flexible.len(), |j: int| flexible[j].size as int),
            order,
            count,
        ),
        spec_flexible_total(flexible, upto) == spec_weight(
            Seq::new(flexible.len(), |j: int| flexible[j].size as int),
            upto,
        ),
    decreases count + upto,
{
    if count > 0 {
        lemma_flexible_weights(flexible, order, (count - 1) as nat, upto);
    } else if upto > 0 {
        lemma_flexible_weights(flexible, order, count, (upto - 1) as nat);
    }
}

/// How far the search looks: to the end of the orders, or as far as the
/// budget goes.
pub open spec fn spec_search_end(orders: Seq<Seq<usize>>) -> int {
    if orders.len() < ORDER_BUDGET {
        orders.len() as int
    } else {
        ORDER_BUDGET as int
    }
}

/// What the search settles on is the best in hand or the layout of one of
/// the orders it looks at, and no layout of an order within its reach has
/// less padding, nor has the best in hand. It settles on nothing only if it
/// has nothing in hand and no order within its reach has a layout.
pub proof fn lemma_search_finds_least(
    start_address: u64,
    page_size: u64,
    fixed: Seq<FixedSlot>,
    flexible: Seq<FlexibleSlot>,
    orders: Seq<Seq<usize>>,
    from: nat,
    best: Option<(Seq<Index>, u64)>,
)
    ensures
        match spec_search(start_address, page_size, fixed, flexible, orders, from, best) {
            None => best is None && forall|i: int|
                from <= i < spec_search_end(orders) ==> spec_place_in_order(
                    start_address,
                    page_size,
                    fixed,
                    flexible,
                    #[trigger] orders[i],
                ) is None,
            Some(found) => {
                &&& best == Some(found) || exists|i: int|
                    from <= i < spec_search_end(orders) && spec_place_in_order(
                        start_address,
                        page_size,
                        fixed,
                        flexible,
                        #[trigger] orders[i],
                    ) == Some(found)
                &&& best is Some ==> found.1 <= best->Some_0.1
                &&& forall|i: int|
                    from <= i < spec_search_end(orders) && spec_place_in_order(
                        start_address,
                        page_size,
                        fixed,
                        flexible,
                        #[trigger] orders[i],
                    ) is Some ==> found.1 <= spec_place_in_order(
                        start_address,
                        page_size,
                        fixed,
                        flexible,
                        orders[i],
                    )->Some_0.1
            },
        },
    decreases orders.len() - from,
{
    if from < orders.len() && from < ORDER_BUDGET {
        let here = spec_place_in_order(
            start_address,
            page_size,
            fixed,
            flexible,
            orders[from as int],
        );
        let next = spec_better(best, here);
        if next matches Some(layout) && layout.1 == 0 {
        } else {
            lemma_search_finds_least(
                start_address,
                page_size,
                fixed,
                flexible,
                orders,
                from + 1,
                next,
            );
        }
    }
}

/// Whether no two slots stand for the same application.
pub open spec fn spec_distinct_slots(fixed: Seq<FixedSlot>, flexible: Seq<FlexibleSlot>) -> bool {
    &&& forall|a: int, b: int|
        0 <= a < b < flexible.len() ==> (#[trigger] flexible[a]).idx != (
        #[trigger] flexible[b]).idx
    &&& forall|a: int, b: int|
        0 <= a < b < fixed.len() ==> (#[trigger] fixed[a]).idx != (#[trigger] fixed[b]).idx
    &&& forall|a: int, b: int|
        0 <= a < flexible.len() && 0 <= b < fixed.len() ==> (#[trigger] flexible[a]).idx != (
        #[trigger] fixed[b]).idx
}

/// Whether a layout on its way names each application placed so far
/// exactly once.
pub open spec fn spec_once(
    fixed: Seq<FixedSlot>,
    flexible: Seq<FlexibleSlot>,
    order: Seq<usize>,
    at: Progress,
) -> bool {
    &&& spec_no_app_twice(at.entries)
    &&& forall|k: int|
        0 <= k < at.flexible_placed ==> spec_has_entry(
            at.entries,
            flexible[(#[trigger] order[k]) as int].idx,
        )
    &&& forall|k: int|
        0 <= k < at.fixed_placed ==> spec_has_entry(at.entries, (#[trigger] fixed[k]).idx)
}

proof fn lemma_has_entry_stays(entries: Seq<Index>, longer: Seq<Index>, id: usize)
    requires
        entries.len() <= longer.len(),
        forall|i: int| 0 <= i < entries.len() ==> longer[i] == entries[i],
        spec_has_entry(entries, id),
    ensures
        spec_has_entry(longer, id),
{
    let i = choose|i: int| 0 <= i < entries.len() && (#[trigger] entries[i]).idx == Some(id);
    assert(longer[i].idx == Some(id));
}

/// Placing one more application names it once and leaves the others named
/// once.
#[verifier::rlimit(40)]
proof fn lemma_place_next_once(
    start_address: u64,
    page_size: u64,
    fixed: Seq<FixedSlot>,
    flexible: Seq<FlexibleSlot>,
    order: Seq<usize>,
    at: Progress,
)
    requires
        spec_sound(start_address, page_size, fixed, flexible, order, at),
        spec_once(fixed, flexible, order, at),
        spec_distinct_slots(fixed, flexible),
        forall|a: int, b: int| 0 <= a < b < order.len() ==> order[a] != order[b],
        spec_unfinished(fixed, order, at),
        spec_place_next(page_size, fixed, flexible, order, at) is Some,
    ensures
        spec_once(
            fixed,
            flexible,
            order,
            spec_place_next(page_size, fixed, flexible, order, at)->Some_0,
        ),
{
    let next = spec_place_next(page_size, fixed, flexible, order, at)->Some_0;
    let gap: u64 = (next.padding - at.padding) as u64;
    let padded = spec_with_padding(at.entries, at.cursor, gap);
    let app = next.entries.last();
    let last = next.entries.len() - 1;
    assert(next.entries == padded.push(app));
    assert(next.entries[last] == app);
    assert forall|i: int| 0 <= i < at.entries.len() implies next.entries[i] == at.entries[i] by {
        assert(padded[i] == at.entries[i]);
    }
    assert forall|i: int| at.entries.len() <= i < last implies (#[trigger] next.entries[i]).idx
        is None by {
        assert(next.entries[i] == padded[i]);
    }
    let id = app.idx->Some_0;
    // No entry so far names the application that is placed now.
    assert forall|i: int| 0 <= i < at.entries.len() implies (#[trigger] at.entries[i]).idx
        != Some(id) by {
        let entry = at.entries[i];
        if entry.idx == Some(id) {
            if spec_from_flexible(entry, page_size, flexible, order, at.flexible_placed) {
                let k = choose|k: int|
                    0 <= k < at.flexible_placed && (#[trigger] order[k]) < flexible.len()
                        && entry.idx == Some(flexible[order[k] as int].idx) && entry.size
                        == flexible[order[k] as int].size && spec_page_aligned(
                        entry.address,
                        page_size,
                    );
                if spec_flexible_next(fixed, flexible, order, at) {
                    let now = at.flexible_placed as int;
                    assert(order[k] != order[now]);
                    let a = order[k] as int;
                    let b = order[now] as int;
                    if a < b {
                        assert(flexible[a].idx != flexible[b].idx);
                    } else {
                        assert(flexible[b].idx != flexible[a].idx);
                    }
                } else {
                    let now = at.fixed_placed as int;
                    assert(flexible[order[k] as int].idx != fixed[now].idx);
                }
            } else {
                let k = choose|k: int|
                    0 <= k < at.fixed_placed && entry.idx == Some((#[trigger] fixed[k]).idx)
                        && entry.size == fixed[k].size && entry.address == fixed[k].address;
                if spec_flexible_next(fixed, flexible, order, at) {
                    let now = at.flexible_placed as int;
                    assert(flexible[order[now] as int].idx != fixed[k].idx);
                } else {
                    let now = at.fixed_placed as int;
                    assert(fixed[k].idx != fixed[now].idx);
                }
            }
        }
    }
    assert forall|i: int, j: int|
        0 <= i < j < next.entries.len() && (#[trigger] next.entries[i]).idx is Some && (
        #[trigger] next.entries[j]).idx is Some implies next.entries[i].idx
        != next.entries[j].idx by {
        if j < at.entries.len() {
            assert(at.entries[i].idx != at.entries[j].idx);
        } else {
            assert(j == last);
            assert(i < at.entries.len());
            assert(at.entries[i].idx != Some(id));
        }
    }
    assert(spec_has_entry(next.entries, id));
    assert forall|k: int| 0 <= k < next.flexible_placed implies spec_has_entry(
        next.entries,
        flexible[(#[trigger] order[k]) as int].idx,
    ) by {
        if k < at.flexible_placed {
            lemma_has_entry_stays(at.entries, next.entries, flexible[order[k] as int].idx);
        }
    }
    assert forall|k: int| 0 <= k < next.fixed_placed implies spec_has_entry(
        next.entries,
        (#[trigger] fixed[k]).idx,
    ) by {
        if k < at.fixed_placed {
            lemma_has_entry_stays(at.entries, next.entries, fixed[k].idx);
        }
    }
}

/// A layout that names each application placed so far once names each
/// application once when it is finished.
proof fn lemma_place_rest_once(
    start_address: u64,
    page_size: u64,
    fixed: Seq<FixedSlot>,
    flexible: Seq<FlexibleSlot>,
    order: Seq<usize>,
    at: Progress,
)
    requires
        spec_sound(start_address, page_size, fixed, flexible, order, at),
        spec_once(fixed, flexible, order, at),
        spec_distinct_slots(fixed, flexible),
        forall|a: int, b: int| 0 <= a < b < order.len() ==> order[a] != order[b],
        spec_place_rest(page_size, fixed, flexible, order, at) is Some,
    ensures
        spec_once(
            fixed,
            flexible,
            order,
            Progress {
                flexible_placed: order.len(),
                fixed_placed: fixed.len(),
                cursor: 0,
                entries: spec_place_rest(page_size, fixed, flexible, order, at)->Some_0.0,
                padding: 0,
            },
        ),
    decreases spec_left(fixed, order, at),
{
    if spec_unfinished(fixed, order, at) {
        let next = spec_place_next(page_size, fixed, flexible, order, at)->Some_0;
        lemma_place_next_sound(start_address, page_size, fixed, flexible, order, at);
        lemma_place_next_once(start_address, page_size, fixed, flexible, order, at);
        lemma_place_rest_once(start_address, page_size, fixed, flexible, order, next);
    }
}

/// In a layout made for an order that names no flexible application twice,
/// of slots that stand for different applications, no application is named
/// twice, and every application that the order names and every fixed
/// application is named.
pub proof fn lemma_layout_names_each_once(
    start_address: u64,
    page_size: u64,
    fixed: Seq<FixedSlot>,
    flexible: Seq<FlexibleSlot>,
    order: Seq<usize>,
)
    requires
        spec_distinct_slots(fixed, flexible),
        forall|a: int, b: int| 0 <= a < b < order.len() ==> order[a] != order[b],
        spec_place_in_order(start_address, page_size, fixed, flexible, order) is Some,
    ensures
        spec_once(
            fixed,
            flexible,
            order,
            Progress {
                flexible_placed: order.len(),
                fixed_placed: fixed.len(),
                cursor: 0,
                entries: spec_place_in_order(
                    start_address,
                    page_size,
                    fixed,
                    flexible,
                    order,
                )->Some_0.0,
                padding: 0,
            },
        ),
{
    let at = spec_start(start_address);
    assert(at.entries.len() == 0);
    lemma_place_rest_once(start_address, page_size, fixed, flexible, order, at);
}

/// Putting a slot for another application into a list of slots for
/// different applications gives such a list.
proof fn lemma_insert_keeps_distinct(sorted: Seq<FixedSlot>, slot: FixedSlot)
    requires
        forall|a: int, b: int|
            0 <= a < b < sorted.len() ==> (#[trigger] sorted[a]).idx != (#[trigger] sorted[b]).idx,
        forall|a: int| 0 <= a < sorted.len() ==> (#[trigger] sorted[a]).idx != slot.idx,
    ensures
        forall|a: int, b: int|
            0 <= a < b < spec_insert_by_address(sorted, slot).len()
                ==> (#[trigger] spec_insert_by_address(sorted, slot)[a]).idx
                != (#[trigger] spec_insert_by_address(sorted, slot)[b]).idx,
    decreases sorted.len(),
{
    let longer = spec_insert_by_address(sorted, slot);
    lemma_insert_by_address(sorted, slot);
    if sorted.len() > 0 && sorted.last().address > slot.address {
        let shorter = sorted.drop_last();
        let inner = spec_insert_by_address(shorter, slot);
        assert forall|a: int| 0 <= a < shorter.len() implies (#[trigger] shorter[a]).idx
            != slot.idx by {
            assert(shorter[a] == sorted[a]);
        }
        assert forall|a: int, b: int| 0 <= a < b < shorter.len() implies (
        #[trigger] shorter[a]).idx != (#[trigger] shorter[b]).idx by {
            assert(shorter[a] == sorted[a] && shorter[b] == sorted[b]);
        }
        lemma_insert_keeps_distinct(shorter, slot);
        lemma_insert_by_address(shorter, slot);
        assert forall|a: int, b: int| 0 <= a < b < longer.len() implies (
        #[trigger] longer[a]).idx != (#[trigger] longer[b]).idx by {
            assert(longer[a] == inner[a]);
            if b < sorted.len() {
                assert(longer[b] == inner[b]);
            } else {
                assert(longer[b] == sorted[sorted.len() - 1]);
                if inner[a] != slot {
                    let k = choose|k: int|
                        0 <= k < shorter.len() && inner[a] == #[trigger] shorter[k];
                    assert(shorter[k] == sorted[k]);
                    assert(sorted[k].idx != sorted[sorted.len() - 1].idx);
                }
            }
        }
    } else if sorted.len() > 0 {
        assert forall|a: int, b: int| 0 <= a < b < longer.len() implies (
        #[trigger] longer[a]).idx != (#[trigger] longer[b]).idx by {
            assert(longer[a] == sorted[a]);
            if b < sorted.len() {
                assert(longer[b] == sorted[b]);
            }
        }
    }
}

/// Sorting slots that stand for different applications leaves them
/// standing for different applications.
proof fn lemma_sort_keeps_distinct(slots: Seq<FixedSlot>)
    requires
        forall|a: int, b: int|
            0 <= a < b < slots.len() ==> (#[trigger] slots[a]).idx != (#[trigger] slots[b]).idx,
    ensures
        forall|a: int, b: int|
            0 <= a < b < spec_sort_by_address(slots).len() ==> (#[trigger] spec_sort_by_address(
                slots,
            )[a]).idx != (#[trigger] spec_sort_by_address(slots)[b]).idx,
    decreases slots.len(),
{
    if slots.len() > 0 {
        let before = slots.drop_last();
        let sorted_before = spec_sort_by_address(before);
        assert forall|a: int, b: int| 0 <= a < b < before.len() implies (
        #[trigger] before[a]).idx != (#[trigger] before[b]).idx by {
            assert(before[a] == slots[a] && before[b] == slots[b]);
        }
        lemma_sort_keeps_distinct(before);
        lemma_sort_keeps_slots(before);
        assert forall|a: int| 0 <= a < sorted_before.len() implies (
        #[trigger] sorted_before[a]).idx != slots.last().idx by {
            let k = choose|k: int|
                0 <= k < before.len() && (#[trigger] sorted_before[a]) == #[trigger] before[k];
            assert(before[k] == slots[k]);
            assert(slots[k].idx != slots[slots.len() - 1].idx);
        }
        lemma_insert_keeps_distinct(sorted_before, slots.last());
    }
}

/// The slots made of `apps` stand for different applications, each for the
/// application at the position it carries, and every application has its
/// slot.
proof fn lemma_slots_name_each_app(apps: Seq<TockApp>)
    requires
        apps.len() <= usize::MAX,
        !spec_lacks_candidate(apps),
    ensures
        spec_distinct_slots(spec_fixed_slots(apps), spec_flexible_slots(apps)),
        forall|position: int|
            0 <= position < apps.len() ==> match #[trigger] apps[position] {
                TockApp::Flexible(_) => exists|j: int|
                    0 <= j < spec_flexible_slots(apps).len() && (#[trigger] spec_flexible_slots(
                        apps,
                    )[j]).idx == position,
                TockApp::Fixed(_) => exists|j: int|
                    0 <= j < spec_fixed_slots(apps).len() && (#[trigger] spec_fixed_slots(
                        apps,
                    )[j]).idx == position,
            },
    decreases apps.len(),
{
    lemma_slots_of_apps(apps);
    let flexible = spec_flexible_slots(apps);
    let fixed = spec_fixed_slots(apps);
    assert forall|a: int, b: int| 0 <= a < flexible.len() && 0 <= b < fixed.len() implies (
    #[trigger] flexible[a]).idx != (#[trigger] fixed[b]).idx by {
        assert(spec_is_flexible_of(apps, flexible[a]));
        assert(spec_is_fixed_of(apps, fixed[b]));
    }
    if apps.len() > 0 {
        let before = apps.drop_last();
        assert(!spec_lacks_candidate(before)) by {
            if spec_lacks_candidate(before) {
                let i = choose|i: int|
                    0 <= i < before.len() && (#[trigger] before[i] matches TockApp::Fixed(app)
                        && app.candidate_addresses@.len() == 0);
                assert(apps[i] == before[i]);
            }
        }
        lemma_slots_name_each_app(before);
        lemma_slots_of_apps(before);
        let flexible_before = spec_flexible_slots(before);
        let fixed_before = spec_fixed_slots(before);
        let top = apps.len() - 1;
        assert(apps[top] == apps.last());
        assert forall|j: int| 0 <= j < flexible_before.len() implies (
        #[trigger] flexible_before[j]).idx < top by {
            assert(spec_is_flexible_of(before, flexible_before[j]));
        }
        assert forall|j: int| 0 <= j < fixed_before.len() implies (
        #[trigger] fixed_before[j]).idx < top by {
            assert(spec_is_fixed_of(before, fixed_before[j]));
        }
        assert forall|j: int| 0 <= j < flexible_before.len() implies flexible[j]
            == flexible_before[j] by {}
        assert forall|j: int| 0 <= j < fixed_before.len() implies fixed[j] == fixed_before[j] by {}
        assert forall|a: int, b: int| 0 <= a < b < flexible.len() implies (
        #[trigger] flexible[a]).idx != (#[trigger] flexible[b]).idx by {
            assert(flexible[a] == flexible_before[a]);
            if b < flexible_before.len() {
                assert(flexible[b] == flexible_before[b]);
            } else {
                assert(flexible[b].idx == top);
            }
        }
        assert forall|a: int, b: int| 0 <= a < b < fixed.len() implies (#[trigger] fixed[a]).idx
            != (#[trigger] fixed[b]).idx by {
            assert(fixed[a] == fixed_before[a]);
            if b < fixed_before.len() {
                assert(fixed[b] == fixed_before[b]);
            } else {
                assert(fixed[b].idx == top);
            }
        }
        assert forall|position: int| 0 <= position < apps.len() implies match #[trigger] apps[position] {
            TockApp::Flexible(_) => exists|j: int|
                0 <= j < flexible.len() && (#[trigger] flexible[j]).idx == position,
            TockApp::Fixed(_) => exists|j: int|
                0 <= j < fixed.len() && (#[trigger] fixed[j]).idx == position,
        } by {
            if position < top {
                assert(before[position] == apps[position]);
                match apps[position] {
                    TockApp::Flexible(_) => {
                        let j = choose|j: int|
                            0 <= j < flexible_before.len() && (#[trigger] flexible_before[j]).idx
                                == position;
                        assert(flexible[j].idx == position);
                    },
                    TockApp::Fixed(_) => {
                        let j = choose|j: int|
                            0 <= j < fixed_before.len() && (#[trigger] fixed_before[j]).idx
                                == position;
                        assert(fixed[j].idx == position);
                    },
                }
            } else {
                match apps[position] {
                    TockApp::Flexible(_) => {
                        assert(flexible[flexible.len() - 1].idx == position);
                    },
                    TockApp::Fixed(_) => {
                        assert(fixed[fixed.len() - 1].idx == position);
                    },
                }
            }
        }
    }
}

/// A sound layout of the slots made of `apps` is a valid layout of `apps`.
proof fn lemma_sound_layout_is_valid(
    start_address: u64,
    page_size: u64,
    apps: Seq<TockApp>,
    order: Seq<usize>,
    layout: (Seq<Index>, u64),
)
    requires
        apps.len() <= usize::MAX,
        !spec_lacks_candidate(apps),
        is_order(order, spec_flexible_slots(apps).len()),
        spec_place_in_order(
            start_address,
            page_size,
            spec_sort_by_address(spec_fixed_slots(apps)),
            spec_flexible_slots(apps),
            order,
        ) == Some(layout),
    ensures
        spec_valid_layout(start_address, page_size, apps, layout.0),
{
    let flexible = spec_flexible_slots(apps);
    let unsorted = spec_fixed_slots(apps);
    let fixed = spec_sort_by_address(unsorted);
    let entries = layout.0;
    lemma_layout_sound(start_address, page_size, fixed, flexible, order);
    lemma_slots_of_apps(apps);
    lemma_sort_keeps_slots(unsorted);
    lemma_order_keeps_size(flexible, order);
    lemma_slots_name_each_app(apps);
    lemma_sort_keeps_distinct(unsorted);
    lemma_layout_names_each_once(start_address, page_size, fixed, flexible, order);
    lemma_order_names_all(order, flexible.len());
    assert forall|position: int| 0 <= position < apps.len() implies #[trigger] spec_has_entry(
        entries,
        position as usize,
    ) by {
        match apps[position] {
            TockApp::Flexible(_) => {
                let j = choose|j: int|
                    0 <= j < flexible.len() && (#[trigger] flexible[j]).idx == position;
                assert(spec_named(order, flexible.len(), j));
                let k = choose|k: int| 0 <= k < flexible.len() && #[trigger] order[k] == j;
                assert(spec_has_entry(entries, flexible[order[k] as int].idx));
            },
            TockApp::Fixed(_) => {
                let j = choose|j: int|
                    0 <= j < unsorted.len() && (#[trigger] unsorted[j]).idx == position;
                lemma_sort_holds_every_slot(unsorted, j);
                let k = choose|k: int| 0 <= k < fixed.len() && #[trigger] fixed[k] == unsorted[j];
                assert(spec_has_entry(entries, fixed[k].idx));
            },
        }
    }
    assert forall|i: int| 0 <= i < entries.len() implies ((#[trigger] entries[i]).idx matches Some(
        k,
    ) ==> k < apps.len() && entries[i].size == apps[k as int].spec_size() && match apps[k as int] {
        TockApp::Flexible(_) => spec_page_aligned(entries[i].address, page_size),
        TockApp::Fixed(app) => app.candidate_addresses@.len() > 0 && entries[i].address
            == app.candidate_addresses@[0],
    }) by {
        let entry = entries[i];
        if entry.idx is Some {
            if spec_from_flexible(entry, page_size, flexible, order, order.len()) {
                let k = choose|k: int|
                    0 <= k < order.len() && (#[trigger] order[k]) < flexible.len() && entry.idx
                        == Some(flexible[order[k] as int].idx) && entry.size
                        == flexible[order[k] as int].size && spec_page_aligned(
                        entry.address,
                        page_size,
                    );
                assert(spec_is_flexible_of(apps, flexible[order[k] as int]));
            } else {
                let k = choose|k: int|
                    0 <= k < fixed.len() && entry.idx == Some((#[trigger] fixed[k]).idx)
                        && entry.size == fixed[k].size && entry.address == fixed[k].address;
                let j = choose|j: int|
                    0 <= j < unsorted.len() && (#[trigger] fixed[k]) == #[trigger] unsorted[j];
                assert(spec_is_fixed_of(apps, unsorted[j]));
            }
        }
    }
}

/// Every layout that the planner returns is valid, provided that each
/// order it was given names each flexible application once.
///
/// The entries lie one behind the other from the start address on, so their
/// addresses never fall and rise behind every entry that is not empty;
/// padding entries are not empty; each flexible application stands at a
/// page boundary and each fixed application at the first of its candidate
/// addresses; and the whole is as long as all the applications and the
/// padding together.
pub proof fn lemma_plan_is_valid(
    start_address: u64,
    page_size: u64,
    apps: Seq<TockApp>,
    orders: Seq<Seq<usize>>,
)
    requires
        apps.len() <= usize::MAX,
        forall|i: int|
            0 <= i < orders.len() ==> is_order(
                #[trigger] orders[i],
                spec_flexible_slots(apps).len(),
            ),
        spec_plan(start_address, page_size, apps, orders) is Some,
    ensures
        spec_valid_layout(
            start_address,
            page_size,
            apps,
            spec_plan(start_address, page_size, apps, orders)->Some_0,
        ),
{
    let flexible = spec_flexible_slots(apps);
    let fixed = spec_sort_by_address(spec_fixed_slots(apps));
    lemma_search_finds_least(start_address, page_size, fixed, flexible, orders, 0, None);
    let found = spec_search(start_address, page_size, fixed, flexible, orders, 0, None)->Some_0;
    let i = choose|i: int|
        0 <= i < spec_search_end(orders) && spec_place_in_order(
            start_address,
            page_size,
            fixed,
            flexible,
            #[trigger] orders[i],
        ) == Some(found);
    lemma_sound_layout_is_valid(start_address, page_size, apps, orders[i], found);
}

/// No order within the planner's reach gives a layout with less padding
/// than the one the planner returns.
pub proof fn lemma_plan_is_least(
    start_address: u64,
    page_size: u64,
    apps: Seq<TockApp>,
    orders: Seq<Seq<usize>>,
    tried: int,
)
    requires
        spec_plan(start_address, page_size, apps, orders) is Some,
        0 <= tried < spec_search_end(orders),
        spec_place_in_order(
            start_address,
            page_size,
            spec_sort_by_address(spec_fixed_slots(apps)),
            spec_flexible_slots(apps),
            orders[tried],
        ) is Some,
    ensures
        spec_padding_size(spec_plan(start_address, page_size, apps, orders)->Some_0)
            <= spec_place_in_order(
            start_address,
            page_size,
            spec_sort_by_address(spec_fixed_slots(apps)),
            spec_flexible_slots(apps),
            orders[tried],
        )->Some_0.1,
{
    let flexible = spec_flexible_slots(apps);
    let fixed = spec_sort_by_address(spec_fixed_slots(apps));
    lemma_search_finds_least(start_address, page_size, fixed, flexible, orders, 0, None);
    let found = spec_search(start_address, page_size, fixed, flexible, orders, 0, None)->Some_0;
    let i = choose|i: int|
        0 <= i < spec_search_end(orders) && spec_place_in_order(
            start_address,
            page_size,
            fixed,
            flexible,
            #[trigger] orders[i],
        ) == Some(found);
    lemma_layout_sound(start_address, page_size, fixed, flexible, orders[i]);
}

/// Where every order of the flexible applications is among those given
/// and within the planner's reach, no order at all gives a layout with
/// less padding than the one the planner returns.
pub proof fn lemma_plan_is_least_of_all(
    start_address: u64,
    page_size: u64,
    apps: Seq<TockApp>,
    orders: Seq<Seq<usize>>,
    order: Seq<usize>,
)
    requires
        orders.len() <= ORDER_BUDGET,
        forall|any: Seq<usize>|
            is_order(any, spec_flexible_slots(apps).len()) ==> #[trigger] orders.contains(any),
        is_order(order, spec_flexible_slots(apps).len()),
        spec_plan(start_address, page_size, apps, orders) is Some,
        spec_place_in_order(
            start_address,
            page_size,
            spec_sort_by_address(spec_fixed_slots(apps)),
            spec_flexible_slots(apps),
            order,
        ) is Some,
    ensures
        spec_padding_size(spec_plan(start_address, page_size, apps, orders)->Some_0)
            <= spec_place_in_order(
            start_address,
            page_size,
            spec_sort_by_address(spec_fixed_slots(apps)),
            spec_flexible_slots(apps),
            order,
        )->Some_0.1,
{
    assert(orders.contains(order));
    let tried = choose|i: int| 0 <= i < orders.len() && orders[i] == order;
    lemma_plan_is_least(start_address, page_size, apps, orders, tried);
}

/// With no applications to place, the layout is empty, whenever there is
/// an order to try at all.
pub proof fn lemma_plan_of_nothing(start_address: u64, page_size: u64, orders: Seq<Seq<usize>>)
    requires
        orders.len() > 0,
        orders[0].len() == 0,
    ensures
        spec_plan(start_address, page_size, Seq::<TockApp>::empty(), orders) == Some(
            Seq::<Index>::empty(),
        ),
{
    let apps = Seq::<TockApp>::empty();
    assert(!spec_lacks_candidate(apps));
    assert(spec_fixed_slots(apps) =~= Seq::<FixedSlot>::empty());
    assert(spec_sort_by_address(Seq::<FixedSlot>::empty()) =~= Seq::<FixedSlot>::empty());
}

/// In a layout that grows to its end, every fixed application still to
/// place lies at or behind the cursor.
proof fn lemma_fixed_lie_ahead(
    page_size: u64,
    fixed: Seq<FixedSlot>,
    flexible: Seq<FlexibleSlot>,
    order: Seq<usize>,
    at: Progress,
    k: int,
)
    requires
        spec_place_rest(page_size, fixed, flexible, order, at) is Some,
        at.fixed_placed <= k < fixed.len(),
    ensures
        fixed[k].address >= at.cursor,
    decreases spec_left(fixed, order, at),
{
    let next = spec_place_next(page_size, fixed, flexible, order, at)->Some_0;
    if k > next.fixed_placed || (k == next.fixed_placed && next.fixed_placed
        == at.fixed_placed) {
        lemma_fixed_lie_ahead(page_size, fixed, flexible, order, next, k);
    } else if k == at.fixed_placed && next.fixed_placed == at.fixed_placed + 1 {
    } else {
        lemma_fixed_lie_ahead(page_size, fixed, flexible, order, next, k);
    }
}

/// The entries of a finished layout start with the entries it had on the
/// way.
proof fn lemma_entries_stay(
    page_size: u64,
    fixed: Seq<FixedSlot>,
    flexible: Seq<FlexibleSlot>,
    order: Seq<usize>,
    at: Progress,
)
    requires
        spec_place_rest(page_size, fixed, flexible, order, at) is Some,
    ensures
        at.entries.len() <= spec_place_rest(page_size, fixed, flexible, order, at)->Some_0.0.len(),
        forall|i: int|
            0 <= i < at.entries.len() ==> spec_place_rest(
                page_size,
                fixed,
                flexible,
                order,
                at,
            )->Some_0.0[i] == at.entries[i],
    decreases spec_left(fixed, order, at),
{
    let end = spec_place_rest(page_size, fixed, flexible, order, at)->Some_0.0;
    if spec_unfinished(fixed, order, at) {
        let next = spec_place_next(page_size, fixed, flexible, order, at)->Some_0;
        lemma_entries_stay(page_size, fixed, flexible, order, next);
        assert(end == spec_place_rest(page_size, fixed, flexible, order, next)->Some_0.0);
        assert forall|i: int| 0 <= i < at.entries.len() implies end[i] == at.entries[i] by {
            assert(next.entries[i] == at.entries[i]);
        }
    }
}

/// Where a fixed application is to stand at the start address, a layout
/// begins with an application, not with padding.
pub proof fn lemma_no_padding_before_fixed_at_start(
    start_address: u64,
    page_size: u64,
    fixed: Seq<FixedSlot>,
    flexible: Seq<FlexibleSlot>,
    order: Seq<usize>,
    at_start: int,
)
    requires
        0 <= at_start < fixed.len(),
        fixed[at_start].address == start_address,
        spec_place_in_order(start_address, page_size, fixed, flexible, order) is Some,
    ensures
        ({
            let entries = spec_place_in_order(
                start_address,
                page_size,
                fixed,
                flexible,
                order,
            )->Some_0.0;
            entries.len() > 0 && entries[0].idx is Some && entries[0].address == start_address
        }),
{
    let at = spec_start(start_address);
    let end = spec_place_in_order(start_address, page_size, fixed, flexible, order)->Some_0.0;
    assert(spec_unfinished(fixed, order, at));
    let next = spec_place_next(page_size, fixed, flexible, order, at)->Some_0;
    assert(end == spec_place_rest(page_size, fixed, flexible, order, next)->Some_0.0);
    lemma_entries_stay(page_size, fixed, flexible, order, next);
    assert(next.entries.len() > 0);
    assert(end[0] == next.entries[0]);
    let gap: u64 = (next.padding - at.padding) as u64;
    if spec_flexible_next(fixed, flexible, order, at) {
        lemma_fixed_lie_ahead(page_size, fixed, flexible, order, next, at_start);
        assert(gap == 0);
    } else {
        if at_start > 0 {
            lemma_fixed_lie_ahead(page_size, fixed, flexible, order, next, at_start);
        }
        assert(gap == 0);
    }
    assert(spec_with_padding(at.entries, at.cursor, gap) =~= Seq::<Index>::empty());
}

/// Where a fixed application has the start address as its first candidate
/// address, the layout that the planner returns begins with an
/// application, not with padding.
pub proof fn lemma_plan_starts_with_app(
    start_address: u64,
    page_size: u64,
    apps: Seq<TockApp>,
    orders: Seq<Seq<usize>>,
    at_start: int,
)
    requires
        apps.len() <= usize::MAX,
        0 <= at_start < apps.len(),
        apps[at_start] matches TockApp::Fixed(app) && app.candidate_addresses@.len() > 0
            && app.candidate_addresses@[0] == start_address,
        spec_plan(start_address, page_size, apps, orders) is Some,
    ensures
        ({
            let entries = spec_plan(start_address, page_size, apps, orders)->Some_0;
            entries.len() > 0 && entries[0].idx is Some && entries[0].address == start_address
        }),
{
    let flexible = spec_flexible_slots(apps);
    let unsorted = spec_fixed_slots(apps);
    let fixed = spec_sort_by_address(unsorted);
    lemma_search_finds_least(start_address, page_size, fixed, flexible, orders, 0, None);
    let found = spec_search(start_address, page_size, fixed, flexible, orders, 0, None)->Some_0;
    let i = choose|i: int|
        0 <= i < spec_search_end(orders) && spec_place_in_order(
            start_address,
            page_size,
            fixed,
            flexible,
            #[trigger] orders[i],
        ) == Some(found);
    lemma_fixed_slot_of_app(apps, at_start);
    let j = choose|j: int|
        0 <= j < unsorted.len() && (#[trigger] unsorted[j]).address == start_address;
    lemma_sort_holds_every_slot(unsorted, j);
    let k = choose|k: int| 0 <= k < fixed.len() && #[trigger] fixed[k] == unsorted[j];
    lemma_no_padding_before_fixed_at_start(
        start_address,
        page_size,
        fixed,
        flexible,
        orders[i],
        k,
    );
}

/// Each fixed application of `apps` has its slot, with the first of its
/// candidate addresses as its address.
proof fn lemma_fixed_slot_of_app(apps: Seq<TockApp>, position: int)
    requires
        0 <= position < apps.len(),
        apps[position] is Fixed,
    ensures
        exists|j: int|
            0 <= j < spec_fixed_slots(apps).len() && (#[trigger] spec_fixed_slots(
                apps,
            )[j]).address == apps[position]->Fixed_0.candidate_addresses@[0],
    decreases apps.len(),
{
    let before = apps.drop_last();
    let slots = spec_fixed_slots(apps);
    if position == apps.len() - 1 {
        assert(apps.last() == apps[position]);
        assert(slots.last().address == apps[position]->Fixed_0.candidate_addresses@[0]);
        assert(slots[slots.len() - 1] == slots.last());
    } else {
        assert(before[position] == apps[position]);
        lemma_fixed_slot_of_app(before, position);
        let j = choose|j: int|
            0 <= j < spec_fixed_slots(before).len() && (#[trigger] spec_fixed_slots(
                before,
            )[j]).address == apps[position]->Fixed_0.candidate_addresses@[0];
        assert(slots[j] == spec_fixed_slots(before)[j]);
    }
}

/// Putting a slot into a list keeps what the list held and adds the slot.
proof fn lemma_insert_holds(sorted: Seq<FixedSlot>, slot: FixedSlot)
    ensures
        exists|k: int|
            0 <= k < spec_insert_by_address(sorted, slot).len() && #[trigger] spec_insert_by_address(
                sorted,
                slot,
            )[k] == slot,
        forall|j: int|
            0 <= j < sorted.len() ==> exists|k: int|
                0 <= k < spec_insert_by_address(sorted, slot).len()
                    && #[trigger] spec_insert_by_address(sorted, slot)[k] == #[trigger] sorted[j],
    decreases sorted.len(),
{
    let longer = spec_insert_by_address(sorted, slot);
    if sorted.len() == 0 {
        assert(longer[0] == slot);
    } else if sorted.last().address <= slot.address {
        assert(longer[sorted.len() as int] == slot);
        assert forall|j: int| 0 <= j < sorted.len() implies exists|k: int|
            0 <= k < longer.len() && #[trigger] longer[k] == #[trigger] sorted[j] by {
            assert(longer[j] == sorted[j]);
        }
    } else {
        let shorter = sorted.drop_last();
        let inner = spec_insert_by_address(shorter, slot);
        lemma_insert_holds(shorter, slot);
        let at = choose|k: int| 0 <= k < inner.len() && #[trigger] inner[k] == slot;
        assert(longer[at] == inner[at]);
        assert forall|j: int| 0 <= j < sorted.len() implies exists|k: int|
            0 <= k < longer.len() && #[trigger] longer[k] == #[trigger] sorted[j] by {
            if j < shorter.len() {
                assert(shorter[j] == sorted[j]);
                let k = choose|k: int| 0 <= k < inner.len() && #[trigger] inner[k] == shorter[j];
                assert(longer[k] == inner[k]);
            } else {
                assert(longer[inner.len() as int] == sorted[j]);
            }
        }
    }
}

/// Sorting loses no slot.
proof fn lemma_sort_holds_every_slot(slots: Seq<FixedSlot>, j: int)
    requires
        0 <= j < slots.len(),
    ensures
        exists|k: int|
            0 <= k < spec_sort_by_address(slots).len() && #[trigger] spec_sort_by_address(
                slots,
            )[k] == slots[j],
    decreases slots.len(),
{
    let before = slots.drop_last();
    let sorted_before = spec_sort_by_address(before);
    let sorted = spec_sort_by_address(slots);
    assert(sorted == spec_insert_by_address(sorted_before, slots.last()));
    lemma_insert_holds(sorted_before, slots.last());
    if j < before.len() {
        lemma_sort_holds_every_slot(before, j);
        let m = choose|m: int|
            0 <= m < sorted_before.len() && #[trigger] sorted_before[m] == before[j];
        assert(before[j] == slots[j]);
        let k = choose|k: int| 0 <= k < sorted.len() && #[trigger] sorted[k] == sorted_before[m];
        assert(sorted[k] == slots[j]);
    } else {
        let k = choose|k: int| 0 <= k < sorted.len() && #[trigger] sorted[k] == slots.last();
        assert(sorted[k] == slots[j]);
    }
}

/// In a valid layout of applications none of which is empty, the
/// addresses rise strictly from entry to entry.
pub proof fn lemma_valid_addresses_rise(
    start_address: u64,
    page_size: u64,
    apps: Seq<TockApp>,
    entries: Seq<Index>,
    earlier: int,
    later: int,
)
    requires
        spec_valid_layout(start_address, page_size, apps, entries),
        forall|k: int| 0 <= k < apps.len() ==> (#[trigger] apps[k]).spec_size() > 0,
        0 <= earlier < later < entries.len(),
    ensures
        entries[earlier].address < entries[later].address,
        entries[earlier].address + entries[earlier].size <= entries[later].address,
{
    lemma_contiguous_addresses_rise(start_address, entries, earlier, later);
    let entry = entries[earlier];
    match entry.idx {
        None => {},
        Some(k) => {
            assert(apps[k as int].spec_size() > 0);
        },
    }
}

/// A padding binary for a gap that its header can state is as long as the
/// gap.
pub proof fn lemma_padding_length(size: u64)
    requires
        16 <= size < 0x1_0000_0000,
    ensures
        spec_padding(spec_padding_length(size)).len() == size,
{
    assert(spec_padding_header(spec_padding_length(size)).len() == 16);
}

/// The packet of a layout that fits is as long as the entries together.
proof fn lemma_packet_length(configuration: Seq<Index>, binaries: Seq<Seq<u8>>)
    requires
        spec_packet_fits(configuration, binaries),
    ensures
        spec_pkt(configuration, binaries).len() == spec_total_size(configuration),
        forall|k: int|
            0 <= k < configuration.len() ==> spec_entry_binary(
                #[trigger] configuration[k],
                binaries,
            ).len() == configuration[k].size,
    decreases configuration.len(),
{
    assert forall|k: int| 0 <= k < configuration.len() implies spec_entry_binary(
        #[trigger] configuration[k],
        binaries,
    ).len() == configuration[k].size by {
        if configuration[k].idx is None {
            lemma_padding_length(configuration[k].size);
        }
    }
    if configuration.len() > 0 {
        let before = configuration.drop_last();
        assert forall|k: int| 0 <= k < before.len() implies match (#[trigger] before[k]).idx {
            None => 16 <= before[k].size < 0x1_0000_0000,
            Some(i) => i < binaries.len() && binaries[i as int].len() == before[k].size,
        } by {
            assert(before[k] == configuration[k]);
        }
        lemma_packet_length(before, binaries);
        assert(configuration[configuration.len() - 1] == configuration.last());
    }
}

/// In the packet of a layout that fits, the binary of each entry stands
/// behind the binaries of the entries before it.
proof fn lemma_packet_entry(configuration: Seq<Index>, binaries: Seq<Seq<u8>>, k: int)
    requires
        spec_packet_fits(configuration, binaries),
        0 <= k < configuration.len(),
    ensures
        0 <= spec_total_size(configuration.take(k)),
        spec_total_size(configuration.take(k)) + configuration[k].size <= spec_pkt(
            configuration,
            binaries,
        ).len(),
        spec_pkt(configuration, binaries).subrange(
            spec_total_size(configuration.take(k)),
            spec_total_size(configuration.take(k)) + configuration[k].size,
        ) == spec_entry_binary(configuration[k], binaries),
    decreases configuration.len(),
{
    let before = configuration.drop_last();
    assert forall|j: int| 0 <= j < before.len() implies match (#[trigger] before[j]).idx {
        None => 16 <= before[j].size < 0x1_0000_0000,
        Some(i) => i < binaries.len() && binaries[i as int].len() == before[j].size,
    } by {
        assert(before[j] == configuration[j]);
    }
    lemma_packet_length(before, binaries);
    lemma_packet_length(configuration, binaries);
    let whole = spec_pkt(configuration, binaries);
    let last = spec_entry_binary(configuration.last(), binaries);
    assert(whole == spec_pkt(before, binaries) + last);
    if k == configuration.len() - 1 {
        assert(configuration.take(k) =~= before);
        assert(configuration[k] == configuration.last());
        assert(whole.subrange(
            spec_total_size(before),
            spec_total_size(before) + configuration[k].size,
        ) =~= last);
    } else {
        lemma_packet_entry(before, binaries, k);
        assert(before.take(k) =~= configuration.take(k));
        assert(before[k] == configuration[k]);
        let from = spec_total_size(configuration.take(k));
        assert(whole.subrange(from, from + configuration[k].size) =~= spec_pkt(
            before,
            binaries,
        ).subrange(from, from + configuration[k].size));
    }
}

/// The packet of a layout that fits is the layout byte for byte: it is as
/// long as the entries together, and the binary of each entry stands in it
/// at the entry's address, counted from the start address.
pub proof fn lemma_packet_follows_layout(
    start_address: u64,
    configuration: Seq<Index>,
    binaries: Seq<Seq<u8>>,
)
    requires
        spec_contiguous(start_address, configuration),
        spec_packet_fits(configuration, binaries),
    ensures
        spec_pkt(configuration, binaries).len() == spec_total_size(configuration),
        forall|k: int|
            0 <= k < configuration.len() ==> start_address <= (
            #[trigger] configuration[k]).address && configuration[k].address - start_address
                + configuration[k].size <= spec_pkt(configuration, binaries).len() && spec_pkt(
                configuration,
                binaries,
            ).subrange(
                configuration[k].address - start_address,
                configuration[k].address - start_address + configuration[k].size,
            ) == spec_entry_binary(configuration[k], binaries),
{
    lemma_packet_length(configuration, binaries);
    assert forall|k: int| 0 <= k < configuration.len() implies start_address <= (
    #[trigger] configuration[k]).address && configuration[k].address - start_address
        + configuration[k].size <= spec_pkt(configuration, binaries).len() && spec_pkt(
        configuration,
        binaries,
    ).subrange(
        configuration[k].address - start_address,
        configuration[k].address - start_address + configuration[k].size,
    ) == spec_entry_binary(configuration[k], binaries) by {
        lemma_packet_entry(configuration, binaries, k);
        assert(configuration[k].address == start_address + spec_total_size(
            configuration.take(k),
        ));
    }
}

} // verus!
