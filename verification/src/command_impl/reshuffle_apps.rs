//! The placement planner: where each application goes in flash.
//!
//! Applications built for a fixed address keep it; the others are packed
//! round them on page boundaries, in the order that wastes the least space
//! among the orders tried. Gaps are filled with padding entries.

use crate::attributes::app_attributes::AppAttributes;
use crate::board_settings::BoardSettings;
use crate::bytes::{
    lemma_u16_round_trip, lemma_u32_round_trip, push_u16, push_u32, u16_at, u16_bytes, u32_at,
    u32_bytes,
};
use crate::tbf::checksum::{checksum_holds, xor_for_checksum};
use crate::command_impl::layout_laws::{
    lemma_plan_is_valid, lemma_plan_of_nothing, spec_valid_layout,
};
use crate::command_impl::orders::{
    index_orders, is_order, next_order, orders_left, start_orders,
};
use crate::command_impl::placement::{
    layout_view, place_in_order, spec_place_in_order, FixedSlot, FlexibleSlot, Layout,
};
use crate::tabs::tab::{spec_first_match, Tab};
use crate::tbf::parse::{
    parse_tbf_footer, parse_tbf_header, parse_tbf_header_lengths, spec_parse_footer,
    spec_parse_header, spec_parse_lengths,
};
use crate::tbf::types::{InitialTbfParseError, TbfHeader, TbfHeaderView};
use vstd::prelude::*;

verus! {

/// Fixed addresses are aligned down to a multiple of this many bytes.
pub const ALIGNMENT: u64 = 1024;

/// How many orders of the flexible applications are tried at most.
pub const ORDER_BUDGET: usize = 100_000;

/// With fixed applications present, more flexible applications than this
/// are refused.
pub const MAX_FLEXIBLE_WITH_FIXED: usize = 9;

/// An application that can be placed at any page boundary.
#[derive(Clone, Debug)]
pub struct FlexibleApp {
    pub idx: Option<usize>,
    /// Where it is installed now, if it is.
    pub board_address: Option<u64>,
    pub size: u64,
}

/// An application built for certain flash addresses.
#[derive(Clone, Debug)]
pub struct FixedApp {
    pub idx: Option<usize>,
    /// Where it is installed now, if it is.
    pub board_address: Option<u64>,
    pub candidate_addresses: Vec<u64>,
    pub size: u64,
}

/// An application to place.
#[derive(Clone, Debug)]
pub enum TockApp {
    Flexible(FlexibleApp),
    Fixed(FixedApp),
}

/// One entry of a layout: an application, named by its index in the list
/// that was planned, or padding, which has no index.
#[derive(Clone, Copy, Debug)]
pub struct Index {
    pub idx: Option<usize>,
    pub address: u64,
    pub size: u64,
}

/// `address` aligned down to a multiple of `ALIGNMENT`.
pub open spec fn spec_align_down(address: u64) -> u64 {
    (address - address % ALIGNMENT) as u64
}

/// Aligns a fixed address down to a multiple of `ALIGNMENT`.
pub fn align_down(address: u64) -> (aligned: u64)
    ensures
        aligned == spec_align_down(address),
        aligned % ALIGNMENT == 0,
        aligned <= address < aligned + ALIGNMENT,
{
    address - address % ALIGNMENT
}

impl FlexibleApp {
    /// A flexible application of `size` bytes, not yet numbered.
    pub fn new(size: u64, board_address: Option<u64>) -> (app: FlexibleApp)
        ensures
            app.idx is None,
            app.board_address == board_address,
            app.size == size,
    {
        FlexibleApp { idx: None, board_address, size }
    }

    /// The layout entry of this application at `install_address`.
    pub fn as_index(&self, install_address: u64) -> (entry: Index)
        ensures
            entry == (Index { idx: self.idx, address: install_address, size: self.size }),
    {
        Index { idx: self.idx, address: install_address, size: self.size }
    }
}

impl FixedApp {
    /// A fixed application of `size` bytes that may go to any of
    /// `candidate_addresses`, not yet numbered.
    pub fn new(size: u64, candidate_addresses: Vec<u64>) -> (app: FixedApp)
        ensures
            app.idx is None,
            app.board_address is None,
            app.candidate_addresses == candidate_addresses,
            app.size == size,
    {
        FixedApp { idx: None, board_address: None, candidate_addresses, size }
    }

    /// The layout entry of this application at `install_address`.
    pub fn as_index(&self, install_address: u64) -> (entry: Index)
        ensures
            entry == (Index { idx: self.idx, address: install_address, size: self.size }),
    {
        Index { idx: self.idx, address: install_address, size: self.size }
    }
}

impl TockApp {
    /// The index given to the application, if one was given.
    pub open spec fn spec_idx(self) -> Option<usize> {
        match self {
            TockApp::Flexible(app) => app.idx,
            TockApp::Fixed(app) => app.idx,
        }
    }

    /// The size of the application in bytes.
    pub open spec fn spec_size(self) -> u64 {
        match self {
            TockApp::Flexible(app) => app.size,
            TockApp::Fixed(app) => app.size,
        }
    }

    /// The same application with the index `idx`.
    pub open spec fn with_idx(self, idx: usize) -> TockApp {
        match self {
            TockApp::Flexible(app) => TockApp::Flexible(
                FlexibleApp { idx: Some(idx), board_address: app.board_address, size: app.size },
            ),
            TockApp::Fixed(app) => TockApp::Fixed(
                FixedApp {
                    idx: Some(idx),
                    board_address: app.board_address,
                    candidate_addresses: app.candidate_addresses,
                    size: app.size,
                },
            ),
        }
    }

    /// Gives the application the index `new_idx` and returns the one it had.
    pub fn replace_idx(&mut self, new_idx: usize) -> (previous: Option<usize>)
        ensures
            previous == old(self).spec_idx(),
            *final(self) == old(self).with_idx(new_idx),
    {
        match self {
            TockApp::Flexible(app) => {
                let previous: Option<usize> = app.idx;
                app.idx = Some(new_idx);
                previous
            },
            TockApp::Fixed(app) => {
                let previous: Option<usize> = app.idx;
                app.idx = Some(new_idx);
                previous
            },
        }
    }

    /// The index given to the application, if one was given.
    pub fn get_idx(&self) -> (idx: Option<usize>)
        ensures
            idx == self.spec_idx(),
    {
        match self {
            TockApp::Flexible(app) => app.idx,
            TockApp::Fixed(app) => app.idx,
        }
    }

    /// The size of the application in bytes.
    pub fn get_size(&self) -> (size: u64)
        ensures
            size == self.spec_size(),
    {
        match self {
            TockApp::Flexible(app) => app.size,
            TockApp::Fixed(app) => app.size,
        }
    }

    /// The layout entry of this application at `install_address`.
    pub fn as_index(&self, install_address: u64) -> (entry: Index)
        ensures
            entry == (Index {
                idx: self.spec_idx(),
                address: install_address,
                size: self.spec_size(),
            }),
    {
        Index { idx: self.get_idx(), address: install_address, size: self.get_size() }
    }
}

/// Whether some fixed application of `apps` has no candidate address.
pub open spec fn spec_lacks_candidate(apps: Seq<TockApp>) -> bool {
    exists|i: int|
        0 <= i < apps.len() && (#[trigger] apps[i] matches TockApp::Fixed(app)
            && app.candidate_addresses@.len() == 0)
}

/// The flexible applications of `apps`, in their order, each with its
/// position in `apps`.
pub open spec fn spec_flexible_slots(apps: Seq<TockApp>) -> Seq<FlexibleSlot>
    decreases apps.len(),
{
    if apps.len() == 0 {
        Seq::empty()
    } else {
        let before = spec_flexible_slots(apps.drop_last());
        match apps.last() {
            TockApp::Flexible(app) => before.push(
                FlexibleSlot { idx: (apps.len() - 1) as usize, size: app.size },
            ),
            TockApp::Fixed(_) => before,
        }
    }
}

/// The fixed applications of `apps`, in their order, each with its position
/// in `apps` and the first of its candidate addresses, the only one that
/// the planner considers.
pub open spec fn spec_fixed_slots(apps: Seq<TockApp>) -> Seq<FixedSlot>
    decreases apps.len(),
{
    if apps.len() == 0 {
        Seq::empty()
    } else {
        let before = spec_fixed_slots(apps.drop_last());
        match apps.last() {
            TockApp::Flexible(_) => before,
            TockApp::Fixed(app) => before.push(
                FixedSlot {
                    idx: (apps.len() - 1) as usize,
                    address: app.candidate_addresses@[0],
                    size: app.size,
                },
            ),
        }
    }
}

/// `sorted` with `slot` put in before the entries at its end that have a
/// greater address. In a list in ascending order that is where the slot
/// belongs, behind every entry of the same address.
pub open spec fn spec_insert_by_address(sorted: Seq<FixedSlot>, slot: FixedSlot) -> Seq<FixedSlot>
    decreases sorted.len(),
{
    if sorted.len() == 0 {
        seq![slot]
    } else if sorted.last().address <= slot.address {
        sorted.push(slot)
    } else {
        spec_insert_by_address(sorted.drop_last(), slot).push(sorted.last())
    }
}

/// `slots` in ascending order of address; slots of the same address keep
/// their order.
pub open spec fn spec_sort_by_address(slots: Seq<FixedSlot>) -> Seq<FixedSlot>
    decreases slots.len(),
{
    if slots.len() == 0 {
        Seq::empty()
    } else {
        spec_insert_by_address(spec_sort_by_address(slots.drop_last()), slots.last())
    }
}

/// The better of the best layout so far and the one just found: the one
/// just found only if it has less padding.
pub open spec fn spec_better(
    best: Option<(Seq<Index>, u64)>,
    found: Option<(Seq<Index>, u64)>,
) -> Option<(Seq<Index>, u64)> {
    match (best, found) {
        (_, None) => best,
        (None, Some(_)) => found,
        (Some(b), Some(f)) => if f.1 < b.1 {
            found
        } else {
            best
        },
    }
}

/// The layout that the search settles on, when it has `best` in hand and
/// goes on with the order of index `from`.
///
/// The orders are tried one after the other, up to `ORDER_BUDGET` of them.
/// A layout replaces the best so far only if it has less padding, so of
/// two with the same padding the earlier stays. A layout without padding
/// ends the search.
pub open spec fn spec_search(
    start_address: u64,
    page_size: u64,
    fixed: Seq<FixedSlot>,
    flexible: Seq<FlexibleSlot>,
    orders: Seq<Seq<usize>>,
    from: nat,
    best: Option<(Seq<Index>, u64)>,
) -> Option<(Seq<Index>, u64)>
    decreases orders.len() - from,
{
    if from >= orders.len() || from >= ORDER_BUDGET {
        best
    } else {
        let next = spec_better(
            best,
            spec_place_in_order(start_address, page_size, fixed, flexible, orders[from as int]),
        );
        if next matches Some(layout) && layout.1 == 0 {
            next
        } else {
            spec_search(start_address, page_size, fixed, flexible, orders, from + 1, next)
        }
    }
}

/// The layout that the planner returns for `apps` when the orders to try
/// are `orders`.
///
/// There is none if a fixed application has no candidate address, or if
/// there are fixed applications and more than `MAX_FLEXIBLE_WITH_FIXED`
/// flexible ones, or if no order tried gives a layout. Else the fixed
/// applications stand in ascending order of their first candidate address,
/// and the layout is the one that the search settles on.
pub open spec fn spec_plan(
    start_address: u64,
    page_size: u64,
    apps: Seq<TockApp>,
    orders: Seq<Seq<usize>>,
) -> Option<Seq<Index>> {
    let flexible = spec_flexible_slots(apps);
    let fixed = spec_sort_by_address(spec_fixed_slots(apps));
    if spec_lacks_candidate(apps) {
        None
    } else if flexible.len() > MAX_FLEXIBLE_WITH_FIXED && fixed.len() > 0 {
        None
    } else {
        match spec_search(start_address, page_size, fixed, flexible, orders, 0, None) {
            Some(layout) => Some(layout.0),
            None => None,
        }
    }
}

/// Whether each of `orders` names each of the positions `0..n` once.
pub open spec fn spec_all_orders(orders: Seq<Seq<usize>>, n: nat) -> bool {
    forall|i: int| 0 <= i < orders.len() ==> is_order(#[trigger] orders[i], n)
}

/// The orders held by `orders`, as sequences.
pub open spec fn orders_view(orders: Seq<Vec<usize>>) -> Seq<Seq<usize>> {
    Seq::new(orders.len(), |i: int| orders[i]@)
}

/// What `spec_plan` gives, for an executable list of entries.
pub open spec fn plan_view(r: Option<Vec<Index>>) -> Option<Seq<Index>> {
    match r {
        Some(entries) => Some(entries@),
        None => None,
    }
}

/// Inserting behind the last entry that is not above `slot` is inserting at
/// position `at`, when every entry from `at` on is above `slot` and the one
/// before `at` is not.
proof fn lemma_insert_position(sorted: Seq<FixedSlot>, slot: FixedSlot, at: int)
    requires
        0 <= at <= sorted.len(),
        forall|k: int| at <= k < sorted.len() ==> sorted[k].address > slot.address,
        at > 0 ==> sorted[at - 1].address <= slot.address,
    ensures
        spec_insert_by_address(sorted, slot) == sorted.insert(at, slot),
    decreases sorted.len() - at,
{
    if sorted.len() == 0 {
        assert(sorted.insert(at, slot) =~= seq![slot]);
    } else if at == sorted.len() {
        assert(sorted.insert(at, slot) =~= sorted.push(slot));
    } else {
        lemma_insert_position(sorted.drop_last(), slot, at);
        assert(sorted.insert(at, slot) =~= sorted.drop_last().insert(at, slot).push(
            sorted.last(),
        ));
    }
}

/// Sorts the fixed applications by address, ascending; those of the same
/// address keep their order.
pub fn sort_by_address(slots: &Vec<FixedSlot>) -> (sorted: Vec<FixedSlot>)
    ensures
        sorted@ == spec_sort_by_address(slots@),
{
    let mut sorted: Vec<FixedSlot> = Vec::new();
    let mut i: usize = 0;
    while i < slots.len()
        invariant
            i <= slots.len(),
            sorted@ == spec_sort_by_address(slots@.take(i as int)),
        decreases slots.len() - i,
    {
        let slot: FixedSlot = slots[i];
        let mut at: usize = sorted.len();
        while at > 0 && sorted[at - 1].address > slot.address
            invariant
                at <= sorted.len(),
                forall|k: int| at <= k < sorted.len() ==> sorted@[k].address > slot.address,
            decreases at,
        {
            at = at - 1;
        }
        proof {
            lemma_insert_position(sorted@, slot, at as int);
            assert(slots@.take(i + 1).drop_last() =~= slots@.take(i as int));
        }
        sorted.insert(at, slot);
        i = i + 1;
    }
    assert(slots@.take(slots.len() as int) =~= slots@);
    sorted
}

/// Splits `apps` into its flexible and its fixed applications, or returns
/// nothing if a fixed application has no candidate address.
fn split_apps(apps: &Vec<TockApp>) -> (r: Option<(Vec<FlexibleSlot>, Vec<FixedSlot>)>)
    ensures
        r is None <==> spec_lacks_candidate(apps@),
        r matches Some(slots) ==> slots.0@ == spec_flexible_slots(apps@) && slots.1@
            == spec_fixed_slots(apps@),
{
    let mut flexible: Vec<FlexibleSlot> = Vec::new();
    let mut fixed: Vec<FixedSlot> = Vec::new();
    let mut i: usize = 0;
    while i < apps.len()
        invariant
            i <= apps.len(),
            !spec_lacks_candidate(apps@.take(i as int)),
            flexible@ == spec_flexible_slots(apps@.take(i as int)),
            fixed@ == spec_fixed_slots(apps@.take(i as int)),
        decreases apps.len() - i,
    {
        proof {
            assert(apps@.take(i + 1).drop_last() =~= apps@.take(i as int));
        }
        match &apps[i] {
            TockApp::Flexible(app) => {
                flexible.push(FlexibleSlot { idx: i, size: app.size });
            },
            TockApp::Fixed(app) => {
                if app.candidate_addresses.len() == 0 {
                    return None;
                }
                fixed.push(
                    FixedSlot { idx: i, address: app.candidate_addresses[0], size: app.size },
                );
            },
        }
        proof {
            if spec_lacks_candidate(apps@.take(i + 1)) {
                let k = choose|k: int|
                    0 <= k < apps@.take(i + 1).len() && (#[trigger] apps@.take(
                        i + 1,
                    )[k] matches TockApp::Fixed(app) && app.candidate_addresses@.len() == 0);
                if k < i {
                    assert(apps@.take(i as int)[k] == apps@[k]);
                }
                assert(false);
            }
        }
        i = i + 1;
    }
    assert(apps@.take(apps.len() as int) =~= apps@);
    Some((flexible, fixed))
}

/// Searches the orders of `orders` for the layout with the least padding.
fn search_orders(
    start_address: u64,
    page_size: u64,
    fixed: &Vec<FixedSlot>,
    flexible: &Vec<FlexibleSlot>,
    orders: &Vec<Vec<usize>>,
) -> (best: Option<Layout>)
    ensures
        layout_view(best) == spec_search(
            start_address,
            page_size,
            fixed@,
            flexible@,
            orders_view(orders@),
            0,
            None,
        ),
{
    let mut best: Option<Layout> = None;
    let mut i: usize = 0;
    while i < orders.len() && i < ORDER_BUDGET
        invariant
            i <= orders.len(),
            spec_search(
                start_address,
                page_size,
                fixed@,
                flexible@,
                orders_view(orders@),
                i as nat,
                layout_view(best),
            ) == spec_search(
                start_address,
                page_size,
                fixed@,
                flexible@,
                orders_view(orders@),
                0,
                None,
            ),
        decreases orders.len() - i,
    {
        let found: Option<Layout> = place_in_order(
            start_address,
            page_size,
            fixed,
            flexible,
            &orders[i],
        );
        let ghost before = layout_view(best);
        let replace: bool = match (&best, &found) {
            (_, None) => false,
            (None, Some(_)) => true,
            (Some(b), Some(f)) => f.padding < b.padding,
        };
        if replace {
            best = found;
        }
        assert(layout_view(best) == spec_better(
            before,
            spec_place_in_order(
                start_address,
                page_size,
                fixed@,
                flexible@,
                orders_view(orders@)[i as int],
            ),
        ));
        let done: bool = match &best {
            Some(layout) => layout.padding == 0,
            None => false,
        };
        if done {
            return best;
        }
        i = i + 1;
    }
    best
}

/// Plans the layout of `installed_apps` from the orders given: the planner
/// itself, for any list of orders.
///
/// `orders` holds the orders in which the flexible applications are tried,
/// each a list of positions among them. Where each of them names each
/// flexible application once, the layout is valid: among the rest, it
/// names every application exactly once.
pub fn reshuffle_apps_in_orders(
    settings: &BoardSettings,
    installed_apps: &Vec<TockApp>,
    orders: &Vec<Vec<usize>>,
) -> (r: Option<Vec<Index>>)
    ensures
        plan_view(r) == spec_plan(
            settings.start_address,
            settings.page_size,
            installed_apps@,
            orders_view(orders@),
        ),
        spec_all_orders(orders_view(orders@), spec_flexible_slots(installed_apps@).len()) ==> (
        r matches Some(entries) ==> spec_valid_layout(
            settings.start_address,
            settings.page_size,
            installed_apps@,
            entries@,
        )),
{
    let app_count: usize = installed_apps.len();
    proof {
        let given = orders_view(orders@);
        if spec_all_orders(given, spec_flexible_slots(installed_apps@).len()) && spec_plan(
            settings.start_address,
            settings.page_size,
            installed_apps@,
            given,
        ) is Some {
            lemma_plan_is_valid(
                settings.start_address,
                settings.page_size,
                installed_apps@,
                given,
            );
        }
    }
    let (flexible, unsorted) = match split_apps(installed_apps) {
        None => {
            return None;
        },
        Some(slots) => slots,
    };
    let fixed: Vec<FixedSlot> = sort_by_address(&unsorted);
    if flexible.len() > MAX_FLEXIBLE_WITH_FIXED && fixed.len() > 0 {
        return None;
    }
    match search_orders(settings.start_address, settings.page_size, &fixed, &flexible, orders) {
        Some(layout) => Some(layout.entries),
        None => None,
    }
}

/// The search looks at no order beyond the first `ORDER_BUDGET`: it settles
/// on the same layout for a list of orders and for any prefix of it that
/// holds all of the list or at least `ORDER_BUDGET` orders.
pub proof fn lemma_search_reads_budget_only(
    start_address: u64,
    page_size: u64,
    fixed: Seq<FixedSlot>,
    flexible: Seq<FlexibleSlot>,
    orders: Seq<Seq<usize>>,
    kept: int,
    from: nat,
    best: Option<(Seq<Index>, u64)>,
)
    requires
        0 <= kept <= orders.len(),
        kept == orders.len() || kept >= ORDER_BUDGET,
    ensures
        spec_search(start_address, page_size, fixed, flexible, orders.take(kept), from, best)
            == spec_search(start_address, page_size, fixed, flexible, orders, from, best),
    decreases orders.len() - from,
{
    if from < orders.len() && from < ORDER_BUDGET {
        let next = spec_better(
            best,
            spec_place_in_order(start_address, page_size, fixed, flexible, orders[from as int]),
        );
        lemma_search_reads_budget_only(
            start_address,
            page_size,
            fixed,
            flexible,
            orders,
            kept,
            from + 1,
            next,
        );
    }
}

/// The first orders of `n` positions, at most `limit` of them.
fn first_orders(n: usize, limit: usize) -> (orders: Vec<Vec<usize>>)
    ensures
        orders@.len() <= limit,
        orders@.len() <= index_orders(n as nat).len(),
        orders@.len() == limit || orders@.len() == index_orders(n as nat).len(),
        orders_view(orders@) == index_orders(n as nat).take(orders@.len() as int),
        forall|i: int|
            0 <= i < index_orders(n as nat).len() ==> is_order(
                #[trigger] index_orders(n as nat)[i],
                n as nat,
            ),
        forall|order: Seq<usize>|
            is_order(order, n as nat) ==> #[trigger] index_orders(n as nat).contains(order),
{
    let mut source = start_orders(n);
    let mut orders: Vec<Vec<usize>> = Vec::new();
    loop
        invariant
            orders@.len() <= limit,
            orders@.len() <= index_orders(n as nat).len(),
            orders_left(source) == index_orders(n as nat).skip(orders@.len() as int),
            orders_view(orders@) == index_orders(n as nat).take(orders@.len() as int),
        ensures
            orders@.len() <= limit,
            orders@.len() <= index_orders(n as nat).len(),
            orders@.len() == limit || orders@.len() == index_orders(n as nat).len(),
            orders_view(orders@) == index_orders(n as nat).take(orders@.len() as int),
        decreases limit - orders@.len(),
    {
        if orders.len() >= limit {
            break;
        }
        let ghost taken = orders@.len() as int;
        let ghost before = orders_view(orders@);
        match next_order(&mut source) {
            None => {
                break;
            },
            Some(order) => {
                orders.push(order);
                proof {
                    let all = index_orders(n as nat);
                    assert(all.skip(taken).skip(1) =~= all.skip(taken + 1));
                    assert(orders_view(orders@) =~= before.push(all[taken]));
                    assert(all.take(taken + 1) =~= all.take(taken).push(all[taken]));
                }
            },
        }
    }
    orders
}

/// Plans where each of `installed_apps` goes in flash.
///
/// The entries of the result name the applications by their position in
/// `installed_apps`, each exactly once. The orders tried for the flexible
/// applications are the permutations of their positions as `itertools`
/// enumerates them, so the result is stated over `index_orders`, of which
/// the last two clauses say that it holds every order of those positions
/// and nothing else; `reshuffle_apps_in_orders` is the same planner for
/// orders given.
pub fn reshuffle_apps(settings: &BoardSettings, installed_apps: Vec<TockApp>) -> (r: Option<
    Vec<Index>,
>)
    ensures
        plan_view(r) == spec_plan(
            settings.start_address,
            settings.page_size,
            installed_apps@,
            index_orders(spec_flexible_slots(installed_apps@).len()),
        ),
        r matches Some(entries) ==> spec_valid_layout(
            settings.start_address,
            settings.page_size,
            installed_apps@,
            entries@,
        ),
        installed_apps@.len() == 0 ==> (r matches Some(entries) && entries@.len() == 0),
        spec_all_orders(
            index_orders(spec_flexible_slots(installed_apps@).len()),
            spec_flexible_slots(installed_apps@).len(),
        ),
        forall|order: Seq<usize>|
            is_order(order, spec_flexible_slots(installed_apps@).len())
                ==> #[trigger] index_orders(spec_flexible_slots(installed_apps@).len()).contains(
                order,
            ),
{
    let app_count: usize = installed_apps.len();
    let flexible_count: usize = count_flexible(&installed_apps);
    let orders: Vec<Vec<usize>> = first_orders(flexible_count, ORDER_BUDGET);
    proof {
        let all = index_orders(flexible_count as nat);
        assert(installed_apps@.len() == app_count);
        if spec_plan(settings.start_address, settings.page_size, installed_apps@, all) is Some {
            lemma_plan_is_valid(
                settings.start_address,
                settings.page_size,
                installed_apps@,
                all,
            );
        }
        if installed_apps@.len() == 0 {
            let nothing = Seq::<usize>::empty();
            assert(is_order(nothing, 0));
            assert(all.contains(nothing));
            assert(is_order(all[0], 0));
            assert(installed_apps@ =~= Seq::<TockApp>::empty());
            lemma_plan_of_nothing(settings.start_address, settings.page_size, all);
        }
        lemma_search_reads_budget_only(
            settings.start_address,
            settings.page_size,
            spec_sort_by_address(spec_fixed_slots(installed_apps@)),
            spec_flexible_slots(installed_apps@),
            index_orders(flexible_count as nat),
            orders@.len() as int,
            0,
            None,
        );
    }
    reshuffle_apps_in_orders(settings, &installed_apps, &orders)
}

/// Counts the flexible applications of `apps`.
fn count_flexible(apps: &Vec<TockApp>) -> (n: usize)
    ensures
        n == spec_flexible_slots(apps@).len(),
{
    let mut n: usize = 0;
    let mut i: usize = 0;
    while i < apps.len()
        invariant
            i <= apps.len(),
            n <= i,
            n == spec_flexible_slots(apps@.take(i as int)).len(),
        decreases apps.len() - i,
    {
        proof {
            assert(apps@.take(i + 1).drop_last() =~= apps@.take(i as int));
        }
        match &apps[i] {
            TockApp::Flexible(_) => {
                n = n + 1;
            },
            TockApp::Fixed(_) => {},
        }
        i = i + 1;
    }
    assert(apps@.take(apps.len() as int) =~= apps@);
    n
}

/// The first word of a padding header: version 2 and a header length of
/// sixteen bytes.
pub const PADDING_FIRST_WORD: u32 = 0x0010_0002;

/// `n` zero bytes.
pub open spec fn spec_zeros(n: nat) -> Seq<u8> {
    Seq::new(n, |i: int| 0u8)
}

/// The sixteen bytes of the header of padding that is `size` bytes long in
/// all: version 2, header length 16, total length `size`, no flags, and
/// the checksum, which is the XOR of the three words before it.
pub open spec fn spec_padding_header(size: u32) -> Seq<u8> {
    u16_bytes(2) + u16_bytes(16) + u32_bytes(size) + u32_bytes(0) + u32_bytes(
        PADDING_FIRST_WORD ^ size,
    )
}

/// The padding binary for a gap of `size` bytes: the header, then zeros up
/// to `size` bytes. It is never shorter than its header.
pub open spec fn spec_padding(size: u32) -> Seq<u8> {
    spec_padding_header(size) + spec_zeros(
        if size > 16 {
            (size - 16) as nat
        } else {
            0
        },
    )
}

/// The length of a padding entry as its header can state it: the low 32
/// bits of `size`.
pub open spec fn spec_padding_length(size: u64) -> u32 {
    (size % 0x1_0000_0000) as u32
}

/// The binary that stands for `entry`: the padding binary for padding, the
/// binary of its application otherwise.
pub open spec fn spec_entry_binary(entry: Index, binaries: Seq<Seq<u8>>) -> Seq<u8> {
    match entry.idx {
        None => spec_padding(spec_padding_length(entry.size)),
        Some(i) => binaries[i as int],
    }
}

/// The bytes to write for `configuration`: the binaries of its entries, one
/// after the other.
pub open spec fn spec_pkt(configuration: Seq<Index>, binaries: Seq<Seq<u8>>) -> Seq<u8>
    decreases configuration.len(),
{
    if configuration.len() == 0 {
        Seq::empty()
    } else {
        spec_pkt(configuration.drop_last(), binaries) + spec_entry_binary(
            configuration.last(),
            binaries,
        )
    }
}

/// The binaries held by `binaries`, as sequences.
pub open spec fn binaries_view(binaries: Seq<Vec<u8>>) -> Seq<Seq<u8>> {
    Seq::new(binaries.len(), |i: int| binaries[i]@)
}

/// Appends `bytes` to `out`.
pub fn append_bytes(out: &mut Vec<u8>, bytes: &[u8])
    ensures
        final(out)@ == old(out)@ + bytes@,
{
    let mut i: usize = 0;
    while i < bytes.len()
        invariant
            i <= bytes.len(),
            out@ == old(out)@ + bytes@.take(i as int),
        decreases bytes.len() - i,
    {
        out.push(bytes[i]);
        i = i + 1;
        assert(out@ =~= old(out)@ + bytes@.take(i as int));
    }
    assert(bytes@.take(bytes.len() as int) =~= bytes@);
}

/// The padding binary for a gap of at least sixteen bytes is what a walk
/// over installed applications takes for padding: its lengths parse, with
/// the gap as its total length, and its header parses as one without a Main
/// element, not enabled.
pub proof fn lemma_padding_parses_as_padding(size: u32)
    requires
        size >= 16,
    ensures
        spec_padding(size).len() == size,
        spec_parse_lengths(spec_padding(size).subrange(0, 8)) == Ok::<
            (u16, u16, u32),
            InitialTbfParseError,
        >((2u16, 16u16, size)),
        spec_parse_header(spec_padding(size).subrange(0, 16), 2) is Ok,
        !spec_parse_header(spec_padding(size).subrange(0, 16), 2)->Ok_0.is_app(),
        spec_parse_header(spec_padding(size).subrange(0, 16), 2)->Ok_0.base.total_size == size,
        spec_parse_header(spec_padding(size).subrange(0, 16), 2)->Ok_0.base.flags == 0,
{
    let header = spec_padding_header(size);
    let sum: u32 = PADDING_FIRST_WORD ^ size;
    assert(spec_padding(size).subrange(0, 16) =~= header);
    assert(spec_padding(size).subrange(0, 8) =~= header.subrange(0, 8));
    lemma_u16_round_trip(2);
    lemma_u16_round_trip(16);
    lemma_u32_round_trip(size);
    lemma_u32_round_trip(0);
    lemma_u32_round_trip(sum);
    assert(u16_at(header, 0) == u16_at(u16_bytes(2), 0));
    assert(u16_at(header, 2) == u16_at(u16_bytes(16), 0));
    assert(u32_at(header, 4) == u32_at(u32_bytes(size), 0));
    assert(u32_at(header, 8) == u32_at(u32_bytes(0), 0));
    assert(u32_at(header, 12) == u32_at(u32_bytes(sum), 0));
    let b0: u8 = header[0];
    let b1: u8 = header[1];
    let b2: u8 = header[2];
    let b3: u8 = header[3];
    assert(b0 == 2 && b1 == 0 && b2 == 16 && b3 == 0) by (bit_vector)
        requires
            b0 == (2u16 & 0xff) as u8,
            b1 == (2u16 >> 8) as u8,
            b2 == (16u16 & 0xff) as u8,
            b3 == (16u16 >> 8) as u8,
    ;
    let first: u32 = u32_at(header, 0);
    assert(first == 0x0010_0002u32) by (bit_vector)
        requires
            first == (2u8 as u32) | ((0u8 as u32) << 8) | ((16u8 as u32) << 16) | ((0u8 as u32)
                << 24),
    ;
    reveal_with_fuel(xor_for_checksum, 5);
    assert((((0u32 ^ 0x0010_0002u32) ^ size) ^ 0) ^ 0 == 0x0010_0002u32 ^ size) by (bit_vector);
    assert(checksum_holds(header));
    assert(header.subrange(16, 16) =~= Seq::<u8>::empty());
}

/// Builds the padding binary for a gap of `size` bytes.
pub fn create_padding(size: u32) -> (buf: Vec<u8>)
    ensures
        buf@ == spec_padding(size),
        buf@.len() == if size > 16 {
            size as nat
        } else {
            16
        },
{
    let mut buf: Vec<u8> = Vec::new();
    push_u16(&mut buf, 2);
    push_u16(&mut buf, 16);
    push_u32(&mut buf, size);
    push_u32(&mut buf, 0);
    push_u32(&mut buf, PADDING_FIRST_WORD ^ size);
    assert(buf@ =~= spec_padding_header(size));
    let ghost header = buf@;
    let mut filled: u32 = 16;
    while filled < size
        invariant
            16 <= filled,
            filled <= size || filled == 16,
            header == spec_padding_header(size),
            buf@ == header + spec_zeros((filled - 16) as nat),
        decreases size - filled,
    {
        buf.push(0);
        filled = filled + 1;
        assert(buf@ =~= header + spec_zeros((filled - 16) as nat));
    }
    buf
}

/// Whether the packet made for `configuration` is the layout byte for
/// byte: every padding entry is at least as long as a padding header and
/// short enough for its header to state its length, and every other entry
/// names a binary that is there and is as long as the entry says.
pub open spec fn spec_packet_fits(configuration: Seq<Index>, binaries: Seq<Seq<u8>>) -> bool {
    forall|k: int|
        0 <= k < configuration.len() ==> match (#[trigger] configuration[k]).idx {
            None => 16 <= configuration[k].size < 0x1_0000_0000,
            Some(i) => i < binaries.len() && binaries[i as int].len() == configuration[k].size,
        }
}

/// Checks that the packet made for `configuration` will be the layout
/// byte for byte.
pub fn packet_fits(configuration: &Vec<Index>, app_binaries: &Vec<Vec<u8>>) -> (fits: bool)
    ensures
        fits == spec_packet_fits(configuration@, binaries_view(app_binaries@)),
{
    let mut k: usize = 0;
    while k < configuration.len()
        invariant
            k <= configuration@.len(),
            spec_packet_fits(configuration@.take(k as int), binaries_view(app_binaries@)),
        decreases configuration.len() - k,
    {
        let entry: Index = configuration[k];
        let fits: bool = match entry.idx {
            None => 16 <= entry.size && entry.size < 0x1_0000_0000,
            Some(i) => i < app_binaries.len() && app_binaries[i].len() as u64 == entry.size,
        };
        if !fits {
            assert(configuration@[k as int] == entry);
            return false;
        }
        proof {
            let longer = configuration@.take(k + 1);
            assert forall|j: int| 0 <= j < longer.len() implies match (#[trigger] longer[j]).idx {
                None => 16 <= longer[j].size < 0x1_0000_0000,
                Some(i) => i < binaries_view(app_binaries@).len() && binaries_view(
                    app_binaries@,
                )[i as int].len() == longer[j].size,
            } by {
                if j < k {
                    assert(longer[j] == configuration@.take(k as int)[j]);
                }
            }
        }
        k = k + 1;
    }
    assert(configuration@.take(configuration.len() as int) =~= configuration@);
    true
}

/// Builds the bytes to write for `configuration`: for each entry in turn,
/// the padding binary if it is padding, else the binary that
/// `app_binaries` holds at the entry's index.
pub fn create_pkt(configuration: Vec<Index>, app_binaries: Vec<Vec<u8>>) -> (pkt: Vec<u8>)
    requires
        forall|k: int|
            0 <= k < configuration@.len() ==> (#[trigger] configuration@[k].idx matches Some(i)
                ==> i < app_binaries@.len()),
    ensures
        pkt@ == spec_pkt(configuration@, binaries_view(app_binaries@)),
{
    let mut pkt: Vec<u8> = Vec::new();
    let mut k: usize = 0;
    while k < configuration.len()
        invariant
            k <= configuration.len(),
            forall|j: int|
                0 <= j < configuration@.len() ==> (#[trigger] configuration@[j].idx matches Some(
                    i,
                ) ==> i < app_binaries@.len()),
            pkt@ == spec_pkt(configuration@.take(k as int), binaries_view(app_binaries@)),
        decreases configuration.len() - k,
    {
        proof {
            assert(configuration@.take(k + 1).drop_last() =~= configuration@.take(k as int));
        }
        let entry: Index = configuration[k];
        match entry.idx {
            None => {
                let padding: Vec<u8> = create_padding((entry.size % 0x1_0000_0000) as u32);
                append_bytes(&mut pkt, padding.as_slice());
            },
            Some(i) => {
                append_bytes(&mut pkt, app_binaries[i].as_slice());
            },
        }
        k = k + 1;
    }
    assert(configuration@.take(configuration.len() as int) =~= configuration@);
    pkt
}

/// Whether footers follow one another in `binary` from `offset` up to
/// `total_size`, each starting four bytes and its length after the one
/// before, and each well-formed.
pub open spec fn spec_footers_parse(binary: Seq<u8>, offset: int, total_size: int) -> bool
    decreases
            if offset < total_size {
                total_size - offset
            } else {
                0
            },
{
    if offset >= total_size {
        true
    } else if offset < 0 || offset > binary.len() {
        false
    } else {
        match spec_parse_footer(binary.subrange(offset, binary.len() as int)) {
            Err(_) => false,
            Ok(footer) => spec_footers_parse(binary, offset + footer.1 + 4, total_size),
        }
    }
}

/// The application that a header describes, when it is `size` bytes long in
/// all and is found, or is to be put, at `board_address`: fixed at the
/// flash address it was built for, if it was built for one, and flexible
/// otherwise. With `align` set, the fixed address is aligned down to a
/// multiple of `ALIGNMENT`.
pub open spec fn spec_app_of_header(
    header: TbfHeaderView,
    size: u32,
    board_address: Option<u64>,
    align: bool,
    app: TockApp,
) -> bool {
    match header.fixed_address_flash() {
        Some(address) => app matches TockApp::Fixed(fixed) && fixed.idx is None
            && fixed.board_address == board_address && fixed.size == size
            && fixed.candidate_addresses@ == seq![
            if align {
                spec_align_down(address as u64)
            } else {
                address as u64
            },
        ],
        None => app matches TockApp::Flexible(flexible) && flexible.idx is None
            && flexible.board_address == board_address && flexible.size == size,
    }
}

/// What a binary says of the application it holds, or nothing if it is no
/// application that can be installed from `start_address` on.
///
/// The binary must start with valid lengths and hold the whole header,
/// which must parse; its footers must parse, one after the other, up to its
/// total length; and if it is built for a flash address, that address must
/// not lie before `start_address`.
pub open spec fn spec_binary_header(binary: Seq<u8>, start_address: u64) -> Option<
    (TbfHeaderView, u32),
> {
    if binary.len() < 8 {
        None
    } else {
        match spec_parse_lengths(binary.subrange(0, 8)) {
            Err(_) => None,
            Ok((version, header_size, total_size)) => if header_size > binary.len() {
                None
            } else {
                match spec_parse_header(binary.subrange(0, header_size as int), version) {
                    Err(_) => None,
                    Ok(header) => if !spec_footers_parse(
                        binary,
                        header.binary_end() as int,
                        total_size as int,
                    ) {
                        None
                    } else if header.fixed_address_flash() matches Some(address) && address
                        < start_address {
                        None
                    } else {
                        Some((header, total_size))
                    },
                }
            },
        }
    }
}

/// Checks that footers follow one another in `binary` from `offset` up to
/// `total_size`.
fn footers_parse(binary: &[u8], offset: u32, total_size: u32) -> (ok: bool)
    ensures
        ok == spec_footers_parse(binary@, offset as int, total_size as int),
{
    let mut at: u64 = offset as u64;
    while at < total_size as u64
        invariant
            spec_footers_parse(binary@, at as int, total_size as int) == spec_footers_parse(
                binary@,
                offset as int,
                total_size as int,
            ),
        decreases
                if at < total_size {
                    total_size - at
                } else {
                    0
                },
    {
        if at > binary.len() as u64 {
            return false;
        }
        match parse_tbf_footer(vstd::slice::slice_subrange(binary, at as usize, binary.len())) {
            Err(_) => {
                return false;
            },
            Ok((_, length)) => {
                at = at + length as u64 + 4;
            },
        }
    }
    true
}

impl TockApp {
    /// The application to plan for an application found on the board. Its
    /// fixed address, if it has one, is taken as it stands in the header.
    pub fn from_app_attributes(app_attributes: &AppAttributes, settings: &BoardSettings) -> (app:
        TockApp)
        ensures
            spec_app_of_header(
                app_attributes.tbf_header@,
                app_attributes.tbf_header.base.total_size,
                Some(app_attributes.address),
                false,
                app,
            ),
    {
        let size: u64 = app_attributes.tbf_header.total_size() as u64;
        match app_attributes.tbf_header.get_fixed_address_flash() {
            Some(address) => {
                let mut candidates: Vec<u64> = Vec::new();
                candidates.push(address as u64);
                TockApp::Fixed(
                    FixedApp {
                        idx: None,
                        board_address: Some(app_attributes.address),
                        candidate_addresses: candidates,
                        size,
                    },
                )
            },
            None => TockApp::Flexible(
                FlexibleApp { idx: None, board_address: Some(app_attributes.address), size },
            ),
        }
    }

    /// The application to plan for a binary that is not yet installed, or
    /// nothing if the binary cannot be installed from where the
    /// applications of the board start. Its fixed address, if it has one,
    /// is aligned down to a multiple of `ALIGNMENT`.
    pub fn from_binary(binary: &[u8], settings: &BoardSettings) -> (r: Option<TockApp>)
        ensures
            match r {
                Some(app) => spec_binary_header(binary@, settings.start_address) matches Some(
                    found,
                ) && spec_app_of_header(found.0, found.1, None, true, app),
                None => spec_binary_header(binary@, settings.start_address) is None,
            },
    {
        if binary.len() < 8 {
            return None;
        }
        let first: [u8; 8] = [
            binary[0],
            binary[1],
            binary[2],
            binary[3],
            binary[4],
            binary[5],
            binary[6],
            binary[7],
        ];
        assert(first@ =~= binary@.subrange(0, 8));
        let (version, header_size, total_size) = match parse_tbf_header_lengths(&first) {
            Err(_) => {
                return None;
            },
            Ok(lengths) => lengths,
        };
        if header_size as usize > binary.len() {
            return None;
        }
        let header: TbfHeader = match parse_tbf_header(
            vstd::slice::slice_subrange(binary, 0, header_size as usize),
            version,
        ) {
            Err(_) => {
                return None;
            },
            Ok(header) => header,
        };
        if !footers_parse(binary, header.get_binary_end(), total_size) {
            return None;
        }
        match header.get_fixed_address_flash() {
            Some(address) => {
                if (address as u64) < settings.start_address {
                    return None;
                }
                let mut candidates: Vec<u64> = Vec::new();
                candidates.push(align_down(address as u64));
                Some(
                    TockApp::Fixed(
                        FixedApp {
                            idx: None,
                            board_address: None,
                            candidate_addresses: candidates,
                            size: total_size as u64,
                        },
                    ),
                )
            },
            None => Some(
                TockApp::Flexible(
                    FlexibleApp { idx: None, board_address: None, size: total_size as u64 },
                ),
            ),
        }
    }

    /// The application to plan for the binary that `tab` holds for the
    /// architecture of the board, or nothing if the board has no
    /// architecture set, the tab holds no such binary, or the binary cannot
    /// be installed.
    pub fn from_tab(tab: &Tab, settings: &BoardSettings) -> (r: Option<TockApp>)
        ensures
            match r {
                Some(app) => settings.arch matches Some(arch) && ({
                    let found = spec_first_match(
                        tab.tbf_files@,
                        vstd::utf8::encode_utf8(arch@),
                        0,
                    );
                    &&& found < tab.tbf_files@.len()
                    &&& spec_binary_header(
                        tab.tbf_files@[found].data@,
                        settings.start_address,
                    ) matches Some(header)
                    &&& spec_app_of_header(header.0, header.1, None, true, app)
                }),
                None => match settings.arch {
                    None => true,
                    Some(arch) => {
                        let found = spec_first_match(
                            tab.tbf_files@,
                            vstd::utf8::encode_utf8(arch@),
                            0,
                        );
                        found == tab.tbf_files@.len() || spec_binary_header(
                            tab.tbf_files@[found].data@,
                            settings.start_address,
                        ) is None
                    },
                },
            },
    {
        match &settings.arch {
            None => None,
            Some(arch) => match tab.extract_binary(arch.as_str()) {
                Err(_) => None,
                Ok(binary) => TockApp::from_binary(binary.as_slice(), settings),
            },
        }
    }
}

} // verus!
