//! The orders in which the flexible applications are tried: the
//! permutations of their positions, as `itertools` enumerates them.

use vstd::prelude::*;

verus! {

/// The iterator that `itertools` makes for `permutations`. Nothing of its
/// inside is visible here.
#[verifier::external_type_specification]
#[verifier::external_body]
#[verifier::reject_recursive_types(I)]
pub struct ExPermutations<I: Iterator>(itertools::structs::Permutations<I>);

/// The orders that an iterator has yet to yield, first to last.
pub uninterp spec fn orders_left(
    orders: itertools::structs::Permutations<std::ops::Range<usize>>,
) -> Seq<Seq<usize>>;

/// All the orders of `n` positions, as `itertools` enumerates the
/// permutations of `0..n` taken `n` at a time.
pub uninterp spec fn index_orders(n: nat) -> Seq<Seq<usize>>;

/// Whether `order` names each of the positions `0..n` once.
pub open spec fn is_order(order: Seq<usize>, n: nat) -> bool {
    &&& order.len() == n
    &&& forall|i: int| 0 <= i < order.len() ==> order[i] < n
    &&& forall|i: int, j: int| 0 <= i < j < order.len() ==> order[i] != order[j]
}

/// `Itertools::permutations` on the range `0..n`, with `n` as the length of
/// each permutation. What the iterator will yield is `index_orders(n)`. As
/// the crate documents, it yields the permutations of the `n` positions,
/// each of length `n`, and all of them.
#[verifier::external_body]
pub(crate) fn start_orders(n: usize) -> (orders: itertools::structs::Permutations<
    std::ops::Range<usize>,
>)
    ensures
        orders_left(orders) == index_orders(n as nat),
        forall|i: int|
            0 <= i < orders_left(orders).len() ==> is_order(
                #[trigger] orders_left(orders)[i],
                n as nat,
            ),
        forall|order: Seq<usize>|
            is_order(order, n as nat) ==> #[trigger] orders_left(orders).contains(order),
{
    itertools::Itertools::permutations(0..n, n)
}

/// `Iterator::next` of the permutations iterator: the next order, or
/// nothing once all have been yielded.
#[verifier::external_body]
pub(crate) fn next_order(
    orders: &mut itertools::structs::Permutations<std::ops::Range<usize>>,
) -> (order: Option<Vec<usize>>)
    ensures
        match order {
            Some(o) => orders_left(*old(orders)).len() > 0 && o@ == orders_left(*old(orders))[0]
                && orders_left(*final(orders)) == orders_left(*old(orders)).skip(1),
            None => orders_left(*old(orders)).len() == 0 && orders_left(*final(orders)).len()
                == 0,
        },
{
    orders.next()
}

} // verus!
