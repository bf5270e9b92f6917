//! Handing out and taking back the slots of a market's pool.

use crate::claimed_seat::ClaimedSeat;
use crate::constants::{DataIndex, NIL};
use crate::resting_order::RestingOrder;
use crate::market::{
    best_of, book, book_inv, free_inv, free_list, is_order_of, lemma_slots_apart, market_inv,
    order_in, pool_view, root_of, same_settings, seat_in, seats, seats_inv, slot_at, slot_ok,
    MarketDynamic, MarketFixed, MarketSlot, PoolView, BLOCK,
};
use crate::slot_pool::{
    apart, free_add, free_entries, free_of, free_remove, indices, kept, seat_entries, seats_of,
    seq_clear_of, set_clear_of, tree_entries, tree_of,
};
use vstd::prelude::*;

verus! {

/// A book whose slots an operation did not touch is what it was.
pub proof fn lemma_book_kept(
    fixed: MarketFixed,
    dynamic: MarketDynamic,
    after: Seq<u64>,
    detached: Set<u32>,
    touched: Set<u32>,
    use_a_tree: bool,
    is_bid: bool,
)
    requires
        book_inv(fixed, dynamic, detached, use_a_tree, is_bid),
        kept(dynamic.links@, after, touched),
        forall|t: u32| #[trigger]
            touched.contains(t) ==> slot_ok(t, dynamic.slots@.len()) && (detached.contains(t)
                || !is_order_of(slot_at(dynamic.slots@, t), use_a_tree, is_bid)),
    ensures
        tree_of(after, root_of(fixed, use_a_tree, is_bid)) == book(
            fixed,
            dynamic,
            use_a_tree,
            is_bid,
        ),
{
    let root = root_of(fixed, use_a_tree, is_bid);
    let e = book(fixed, dynamic, use_a_tree, is_bid);
    if root != NIL {
        assert(e == tree_entries(dynamic.links@, root));
        assert forall|k: int, t: u32|
            #![trigger indices(e)[k], touched.contains(t)]
            0 <= k < indices(e).len() && touched.contains(t) implies apart(indices(e)[k], t) by {
            assert(indices(e)[k] == e[k].0);
            lemma_slots_apart(e[k].0, t, dynamic.slots@.len());
        }
        assert(seq_clear_of(indices(e), touched));
        assert(tree_entries(after, root) == tree_entries(dynamic.links@, root));
    }
}

/// A free list whose slots an operation did not touch is what it was.
pub proof fn lemma_free_kept(
    fixed: MarketFixed,
    dynamic: MarketDynamic,
    after: Seq<u64>,
    detached: Set<u32>,
    touched: Set<u32>,
)
    requires
        free_inv(fixed, dynamic, detached),
        kept(dynamic.links@, after, touched),
        forall|t: u32| #[trigger]
            touched.contains(t) ==> slot_ok(t, dynamic.slots@.len()) && (detached.contains(t) || !(
            slot_at(dynamic.slots@, t) is Empty)),
    ensures
        free_of(after, fixed.free_list_head_index) == free_list(fixed, dynamic),
{
    let head = fixed.free_list_head_index;
    let f = free_list(fixed, dynamic);
    if head != NIL {
        assert(f == free_entries(dynamic.links@, head));
        assert forall|k: int, t: u32|
            #![trigger f[k], touched.contains(t)]
            0 <= k < f.len() && touched.contains(t) implies apart(f[k], t) by {
            lemma_slots_apart(f[k], t, dynamic.slots@.len());
        }
        assert(seq_clear_of(f, touched));
        assert(free_entries(after, head) == free_entries(dynamic.links@, head));
    }
}

/// A tree of seats whose slots an operation did not touch is what it was.
pub proof fn lemma_seats_kept(
    fixed: MarketFixed,
    dynamic: MarketDynamic,
    after: Seq<u64>,
    detached: Set<u32>,
    touched: Set<u32>,
)
    requires
        seats_inv(fixed, dynamic, detached),
        kept(dynamic.links@, after, touched),
        forall|t: u32| #[trigger]
            touched.contains(t) ==> slot_ok(t, dynamic.slots@.len()) && (detached.contains(t) || !(
            slot_at(dynamic.slots@, t) is Seat)),
    ensures
        seats_of(after, fixed.claimed_seats_root_index) == seats(fixed, dynamic),
{
    let root = fixed.claimed_seats_root_index;
    let s = seats(fixed, dynamic);
    if root != NIL {
        assert(s == seat_entries(dynamic.links@, root));
        assert forall|i: u32, t: u32|
            #![trigger s.dom().contains(i), touched.contains(t)]
            s.dom().contains(i) && touched.contains(t) implies apart(i, t) by {
            assert(slot_at(dynamic.slots@, i) is Seat);
            lemma_slots_apart(i, t, dynamic.slots@.len());
        }
        assert(set_clear_of(s.dom(), touched));
        assert(seat_entries(after, root) == seat_entries(dynamic.links@, root));
    }
}

/// Takes the first free slot off the free list and returns its index, or
/// `NIL` where no slot is free. The slot belongs to the caller until it is
/// put into a tree or released.
pub fn get_free_address_on_market_fixed(fixed: &mut MarketFixed, dynamic: &mut MarketDynamic)
    -> (index: DataIndex)
    requires
        market_inv(*old(fixed), *old(dynamic), Set::empty()),
    ensures
        index == old(fixed).free_list_head_index,
        (index == NIL) == (free_list(*old(fixed), *old(dynamic)).len() == 0),
        same_settings(*old(fixed), *final(fixed)),
        crate::market::indexes_kept(*old(fixed), *final(fixed), Set::empty()),
        final(fixed).num_bytes_allocated == old(fixed).num_bytes_allocated,
        index == NIL ==> *final(fixed) == *old(fixed) && pool_view(*final(fixed), *final(dynamic))
            == pool_view(*old(fixed), *old(dynamic)) && market_inv(
            *final(fixed),
            *final(dynamic),
            Set::empty(),
        ),
        index != NIL ==> {
            &&& market_inv(*final(fixed), *final(dynamic), set![index])
            &&& slot_ok(index, old(dynamic).slots@.len())
            &&& slot_at(old(dynamic).slots@, index) is Empty
            &&& free_list(*old(fixed), *old(dynamic))[0] == index
            &&& pool_view(*final(fixed), *final(dynamic)) == (PoolView {
                free: free_list(*old(fixed), *old(dynamic)).drop_first(),
                ..pool_view(*old(fixed), *old(dynamic))
            })
        },
{
    proof {
        reveal(market_inv);
    }
    let head = fixed.free_list_head_index;
    let (index, new_head) = free_remove(&mut dynamic.links, head);
    fixed.free_list_head_index = new_head;
    proof {
        let f0 = *old(fixed);
        let d0 = *old(dynamic);
        let f1 = *fixed;
        let d1 = *dynamic;
        if index != NIL {
            let touched = set![index];
            let f = free_list(f0, d0);
            assert(f[0] == index);
            assert(slot_at(d0.slots@, f[0]) is Empty);
            assert forall|t: u32| #[trigger] touched.contains(t) implies slot_ok(
                t,
                d0.slots@.len(),
            ) && !(slot_at(d0.slots@, t) is Seat) && !is_order_of(
                slot_at(d0.slots@, t),
                true,
                true,
            ) by {}
            lemma_seats_kept(f0, d0, d1.links@, Set::empty(), touched);
            lemma_book_kept(f0, d0, d1.links@, Set::empty(), touched, true, true);
            lemma_book_kept(f0, d0, d1.links@, Set::empty(), touched, true, false);
            lemma_book_kept(f0, d0, d1.links@, Set::empty(), touched, false, true);
            lemma_book_kept(f0, d0, d1.links@, Set::empty(), touched, false, false);
            let g = free_list(f1, d1);
            assert(g == f.drop_first());
            assert forall|k: int| 0 <= k < g.len() implies slot_ok(
                #[trigger] g[k],
                d1.slots@.len(),
            ) && !touched.contains(g[k]) && slot_at(d1.slots@, g[k]) is Empty by {
                assert(g[k] == f[k + 1]);
            }
            assert forall|k: int, l: int| 0 <= k < l < g.len() implies g[k] != g[l] by {
                assert(g[k] == f[k + 1] && g[l] == f[l + 1]);
            }
            assert forall|i: u32|
                slot_ok(i, d1.slots@.len()) && !touched.contains(i) && (#[trigger] slot_at(
                    d1.slots@,
                    i,
                )) is Empty implies g.contains(i) by {
                assert(f.contains(i));
                let k = choose|k: int| 0 <= k < f.len() && f[k] == i;
                assert(k != 0);
                assert(g[k - 1] == i);
            }
            assert(free_inv(f1, d1, touched));
            assert(seats(f1, d1) == seats(f0, d0));
            assert(seats_inv(f1, d1, touched)) by {
                assert forall|i: u32| seats(f1, d1).dom().contains(i) implies !touched.contains(
                    i,
                ) by {
                    assert(slot_at(d0.slots@, i) is Seat);
                }
            }
            lemma_book_still(f0, d0, f1, d1, Set::empty(), touched, true, true);
            lemma_book_still(f0, d0, f1, d1, Set::empty(), touched, true, false);
            lemma_book_still(f0, d0, f1, d1, Set::empty(), touched, false, true);
            lemma_book_still(f0, d0, f1, d1, Set::empty(), touched, false, false);
        } else {
            assert(d1.links@ == d0.links@);
            assert(f1 == f0);
        }
    }
    index
}

/// A slot of a pool of `n` slots lies in a buffer of `14 n` words and is
/// aligned to a word.
pub proof fn lemma_slot_fits(i: u32, n: nat)
    requires
        slot_ok(i, n),
    ensures
        i % 8 == 0,
        i + 112 <= 8 * (14 * n),
        i != NIL,
{
    assert(i % 8 == 0 && i + 112 <= 112 * n) by (nonlinear_arith)
        requires
            i % 112 == 0,
            i / 112 < n,
    ;
}

/// A book that is what it was still meets its invariant over other records
/// and other slots set aside, where the orders of the book that count are
/// the same before and after.
pub proof fn lemma_book_still(
    f0: MarketFixed,
    d0: MarketDynamic,
    f1: MarketFixed,
    d1: MarketDynamic,
    detached0: Set<u32>,
    detached1: Set<u32>,
    use_a_tree: bool,
    is_bid: bool,
)
    requires
        book_inv(f0, d0, detached0, use_a_tree, is_bid),
        book(f1, d1, use_a_tree, is_bid) == book(f0, d0, use_a_tree, is_bid),
        root_of(f1, use_a_tree, is_bid) == root_of(f0, use_a_tree, is_bid),
        best_of(f1, use_a_tree, is_bid) == best_of(f0, use_a_tree, is_bid),
        forall|i: u32|
            slot_ok(i, d0.slots@.len()) && !detached0.contains(i) && is_order_of(
                #[trigger] slot_at(d0.slots@, i),
                use_a_tree,
                is_bid,
            ) ==> slot_ok(i, d1.slots@.len()) && !detached1.contains(i) && slot_at(d1.slots@, i)
                == slot_at(d0.slots@, i),
        forall|i: u32|
            slot_ok(i, d1.slots@.len()) && !detached1.contains(i) && is_order_of(
                #[trigger] slot_at(d1.slots@, i),
                use_a_tree,
                is_bid,
            ) ==> slot_ok(i, d0.slots@.len()) && !detached0.contains(i) && slot_at(d1.slots@, i)
                == slot_at(d0.slots@, i),
    ensures
        book_inv(f1, d1, detached1, use_a_tree, is_bid),
{
    let e = book(f0, d0, use_a_tree, is_bid);
    assert forall|k: int| 0 <= k < e.len() implies slot_ok(
        (#[trigger] e[k]).0,
        d1.slots@.len(),
    ) && !detached1.contains(e[k].0) && is_order_of(
        slot_at(d1.slots@, e[k].0),
        use_a_tree,
        is_bid,
    ) && e[k].1 == order_in(slot_at(d1.slots@, e[k].0)).spec_priority() by {
        let i = e[k].0;
        assert(is_order_of(slot_at(d0.slots@, i), use_a_tree, is_bid));
    }
    assert forall|i: u32|
        slot_ok(i, d1.slots@.len()) && !detached1.contains(i) && is_order_of(
            #[trigger] slot_at(d1.slots@, i),
            use_a_tree,
            is_bid,
        ) implies indices(e).contains(i) by {
        assert(is_order_of(slot_at(d0.slots@, i), use_a_tree, is_bid));
    }
}

/// A tree of seats that is what it was still meets its invariant over other
/// records and other slots set aside, where the seats that count are the same
/// slots before and after, each with the trader it had.
pub proof fn lemma_seats_still(
    f0: MarketFixed,
    d0: MarketDynamic,
    f1: MarketFixed,
    d1: MarketDynamic,
    detached0: Set<u32>,
    detached1: Set<u32>,
)
    requires
        seats_inv(f0, d0, detached0),
        seats(f1, d1) == seats(f0, d0),
        f1.claimed_seats_root_index == f0.claimed_seats_root_index,
        forall|i: u32|
            slot_ok(i, d0.slots@.len()) && !detached0.contains(i) && (#[trigger] slot_at(
                d0.slots@,
                i,
            )) is Seat ==> slot_ok(i, d1.slots@.len()) && !detached1.contains(i) && slot_at(
                d1.slots@,
                i,
            ) is Seat && seat_in(slot_at(d1.slots@, i)).trader == seat_in(
                slot_at(d0.slots@, i),
            ).trader,
        forall|i: u32|
            slot_ok(i, d1.slots@.len()) && !detached1.contains(i) && (#[trigger] slot_at(
                d1.slots@,
                i,
            )) is Seat ==> slot_ok(i, d0.slots@.len()) && !detached0.contains(i) && slot_at(
                d0.slots@,
                i,
            ) is Seat,
    ensures
        seats_inv(f1, d1, detached1),
{
    let s = seats(f0, d0);
    assert forall|i: u32| s.dom().contains(i) implies slot_ok(i, d1.slots@.len())
        && !detached1.contains(i) && (#[trigger] slot_at(d1.slots@, i)) is Seat && seat_in(
        slot_at(d1.slots@, i),
    ).trader@ == s[i] by {
        assert(slot_at(d0.slots@, i) is Seat);
    }
    assert forall|i: u32|
        slot_ok(i, d1.slots@.len()) && !detached1.contains(i) && (#[trigger] slot_at(
            d1.slots@,
            i,
        )) is Seat implies s.dom().contains(i) by {
        assert(slot_at(d0.slots@, i) is Seat);
    }
}

/// A free list that is what it was still meets its invariant over other
/// records and other slots set aside, where the empty slots that count are
/// the same before and after.
pub proof fn lemma_free_still(
    f0: MarketFixed,
    d0: MarketDynamic,
    f1: MarketFixed,
    d1: MarketDynamic,
    detached0: Set<u32>,
    detached1: Set<u32>,
)
    requires
        free_inv(f0, d0, detached0),
        free_list(f1, d1) == free_list(f0, d0),
        f1.free_list_head_index == f0.free_list_head_index,
        forall|i: u32|
            slot_ok(i, d0.slots@.len()) && !detached0.contains(i) && (#[trigger] slot_at(
                d0.slots@,
                i,
            )) is Empty ==> slot_ok(i, d1.slots@.len()) && !detached1.contains(i) && slot_at(
                d1.slots@,
                i,
            ) is Empty,
        forall|i: u32|
            slot_ok(i, d1.slots@.len()) && !detached1.contains(i) && (#[trigger] slot_at(
                d1.slots@,
                i,
            )) is Empty ==> slot_ok(i, d0.slots@.len()) && !detached0.contains(i) && slot_at(
                d0.slots@,
                i,
            ) is Empty,
    ensures
        free_inv(f1, d1, detached1),
{
    let f = free_list(f0, d0);
    assert forall|k: int| 0 <= k < f.len() implies slot_ok(#[trigger] f[k], d1.slots@.len())
        && !detached1.contains(f[k]) && slot_at(d1.slots@, f[k]) is Empty by {
        assert(slot_at(d0.slots@, f[k]) is Empty);
    }
    assert forall|i: u32|
        slot_ok(i, d1.slots@.len()) && !detached1.contains(i) && (#[trigger] slot_at(
            d1.slots@,
            i,
        )) is Empty implies f.contains(i) by {
        assert(slot_at(d0.slots@, i) is Empty);
    }
}

/// The record of the slot at `index` after the record of the slot at `at`
/// was replaced.
pub proof fn lemma_slot_update(slots: Seq<MarketSlot>, at: u32, value: MarketSlot, index: u32)
    requires
        slot_ok(at, slots.len()),
        slot_ok(index, slots.len()),
    ensures
        slot_at(slots.update(at as int / BLOCK as int, value), index) == if index == at {
            value
        } else {
            slot_at(slots, index)
        },
{
    if index != at {
        assert(index as int / 112 != at as int / 112) by (nonlinear_arith)
            requires
                index % 112 == 0,
                at % 112 == 0,
                index != at,
        ;
    }
}

/// Puts the slot at `index`, which the caller holds, back at the head of the
/// free list; its record becomes empty.
pub fn release_address_on_market_fixed(
    fixed: &mut MarketFixed,
    dynamic: &mut MarketDynamic,
    index: DataIndex,
)
    requires
        market_inv(*old(fixed), *old(dynamic), set![index]),
        slot_ok(index, old(dynamic).slots@.len()),
    ensures
        market_inv(*final(fixed), *final(dynamic), Set::empty()),
        same_settings(*old(fixed), *final(fixed)),
        crate::market::indexes_kept(*old(fixed), *final(fixed), Set::empty()),
        final(fixed).num_bytes_allocated == old(fixed).num_bytes_allocated,
        final(fixed).free_list_head_index == index,
        pool_view(*final(fixed), *final(dynamic)) == (PoolView {
            free: seq![index] + free_list(*old(fixed), *old(dynamic)),
            slots: old(dynamic).slots@.update(index as int / BLOCK as int, MarketSlot::Empty),
            ..pool_view(*old(fixed), *old(dynamic))
        }),
{
    proof {
        reveal(market_inv);
    }
    let ghost f0 = *fixed;
    let ghost d0 = *dynamic;
    let ghost det0 = set![index];
    dynamic.slots.set((index / BLOCK) as usize, MarketSlot::Empty);
    let ghost dm = *dynamic;
    proof {
        lemma_slot_fits(index, d0.slots@.len());
        assert forall|i: u32| slot_ok(i, d0.slots@.len()) implies #[trigger] slot_at(
            dm.slots@,
            i,
        ) == if i == index {
            MarketSlot::Empty
        } else {
            slot_at(d0.slots@, i)
        } by {
            lemma_slot_update(d0.slots@, index, MarketSlot::Empty, i);
        }
        lemma_free_still(f0, d0, f0, dm, det0, det0);
        lemma_seats_still(f0, d0, f0, dm, det0, det0);
        lemma_book_still(f0, d0, f0, dm, det0, det0, true, true);
        lemma_book_still(f0, d0, f0, dm, det0, det0, true, false);
        lemma_book_still(f0, d0, f0, dm, det0, det0, false, true);
        lemma_book_still(f0, d0, f0, dm, det0, det0, false, false);
        let f = free_list(f0, dm);
        assert forall|k: int, t: u32|
            #![trigger f[k], det0.contains(t)]
            0 <= k < f.len() && det0.contains(t) implies apart(f[k], t) by {
            lemma_slots_apart(f[k], t, dm.slots@.len());
        }
    }
    let head = fixed.free_list_head_index;
    let new_head = free_add(&mut dynamic.links, head, index);
    fixed.free_list_head_index = new_head;
    proof {
        let f1 = *fixed;
        let d1 = *dynamic;
        let none = Set::<u32>::empty();
        assert forall|t: u32| #[trigger] det0.contains(t) implies slot_ok(t, dm.slots@.len())
            && det0.contains(t) by {}
        lemma_seats_kept(f0, dm, d1.links@, det0, det0);
        lemma_book_kept(f0, dm, d1.links@, det0, det0, true, true);
        lemma_book_kept(f0, dm, d1.links@, det0, det0, true, false);
        lemma_book_kept(f0, dm, d1.links@, det0, det0, false, true);
        lemma_book_kept(f0, dm, d1.links@, det0, det0, false, false);
        lemma_seats_still(f0, dm, f1, d1, det0, none);
        lemma_book_still(f0, dm, f1, d1, det0, none, true, true);
        lemma_book_still(f0, dm, f1, d1, det0, none, true, false);
        lemma_book_still(f0, dm, f1, d1, det0, none, false, true);
        lemma_book_still(f0, dm, f1, d1, det0, none, false, false);
        let f = free_list(f0, dm);
        let g = free_list(f1, d1);
        assert(g == seq![index] + f);
        assert(g[0] == index);
        assert forall|k: int| 1 <= k < g.len() implies #[trigger] g[k] == f[k - 1] by {}
        assert forall|k: int| 0 <= k < g.len() implies slot_ok(#[trigger] g[k], d1.slots@.len())
            && !none.contains(g[k]) && slot_at(d1.slots@, g[k]) is Empty by {
            if k > 0 {
                assert(g[k] == f[k - 1]);
            }
        }
        assert forall|k: int, l: int| 0 <= k < l < g.len() implies g[k] != g[l] by {
            assert(g[l] == f[l - 1]);
            if k > 0 {
                assert(g[k] == f[k - 1]);
            }
        }
        assert forall|i: u32|
            slot_ok(i, d1.slots@.len()) && !none.contains(i) && (#[trigger] slot_at(
                d1.slots@,
                i,
            )) is Empty implies g.contains(i) by {
            if i == index {
                assert(g[0] == i);
            } else {
                assert(f.contains(i));
                let k = choose|k: int| 0 <= k < f.len() && f[k] == i;
                assert(g[k + 1] == i);
            }
        }
        assert(free_inv(f1, d1, none));
        assert(pool_view(f1, d1).slots == d0.slots@.update(
            index as int / BLOCK as int,
            MarketSlot::Empty,
        ));
    }
}

/// A slot for a seat: see `get_free_address_on_market_fixed`.
pub fn get_free_address_on_market_fixed_for_seat(
    fixed: &mut MarketFixed,
    dynamic: &mut MarketDynamic,
) -> (index: DataIndex)
    requires
        market_inv(*old(fixed), *old(dynamic), Set::empty()),
    ensures
        index == old(fixed).free_list_head_index,
        (index == NIL) == (free_list(*old(fixed), *old(dynamic)).len() == 0),
        same_settings(*old(fixed), *final(fixed)),
        crate::market::indexes_kept(*old(fixed), *final(fixed), Set::empty()),
        final(fixed).num_bytes_allocated == old(fixed).num_bytes_allocated,
        index == NIL ==> *final(fixed) == *old(fixed) && pool_view(*final(fixed), *final(dynamic))
            == pool_view(*old(fixed), *old(dynamic)) && market_inv(
            *final(fixed),
            *final(dynamic),
            Set::empty(),
        ),
        index != NIL ==> {
            &&& market_inv(*final(fixed), *final(dynamic), set![index])
            &&& slot_ok(index, old(dynamic).slots@.len())
            &&& slot_at(old(dynamic).slots@, index) is Empty
            &&& free_list(*old(fixed), *old(dynamic))[0] == index
            &&& pool_view(*final(fixed), *final(dynamic)) == (PoolView {
                free: free_list(*old(fixed), *old(dynamic)).drop_first(),
                ..pool_view(*old(fixed), *old(dynamic))
            })
        },
{
    get_free_address_on_market_fixed(fixed, dynamic)
}

/// A slot for a bid: see `get_free_address_on_market_fixed`.
pub fn get_free_address_on_market_fixed_for_bid_order(
    fixed: &mut MarketFixed,
    dynamic: &mut MarketDynamic,
) -> (index: DataIndex)
    requires
        market_inv(*old(fixed), *old(dynamic), Set::empty()),
    ensures
        index == old(fixed).free_list_head_index,
        (index == NIL) == (free_list(*old(fixed), *old(dynamic)).len() == 0),
        same_settings(*old(fixed), *final(fixed)),
        crate::market::indexes_kept(*old(fixed), *final(fixed), Set::empty()),
        final(fixed).num_bytes_allocated == old(fixed).num_bytes_allocated,
        index == NIL ==> *final(fixed) == *old(fixed) && pool_view(*final(fixed), *final(dynamic))
            == pool_view(*old(fixed), *old(dynamic)) && market_inv(
            *final(fixed),
            *final(dynamic),
            Set::empty(),
        ),
        index != NIL ==> {
            &&& market_inv(*final(fixed), *final(dynamic), set![index])
            &&& slot_ok(index, old(dynamic).slots@.len())
            &&& slot_at(old(dynamic).slots@, index) is Empty
            &&& free_list(*old(fixed), *old(dynamic))[0] == index
            &&& pool_view(*final(fixed), *final(dynamic)) == (PoolView {
                free: free_list(*old(fixed), *old(dynamic)).drop_first(),
                ..pool_view(*old(fixed), *old(dynamic))
            })
        },
{
    get_free_address_on_market_fixed(fixed, dynamic)
}

/// A slot for an ask: see `get_free_address_on_market_fixed`.
pub fn get_free_address_on_market_fixed_for_ask_order(
    fixed: &mut MarketFixed,
    dynamic: &mut MarketDynamic,
) -> (index: DataIndex)
    requires
        market_inv(*old(fixed), *old(dynamic), Set::empty()),
    ensures
        index == old(fixed).free_list_head_index,
        (index == NIL) == (free_list(*old(fixed), *old(dynamic)).len() == 0),
        same_settings(*old(fixed), *final(fixed)),
        crate::market::indexes_kept(*old(fixed), *final(fixed), Set::empty()),
        final(fixed).num_bytes_allocated == old(fixed).num_bytes_allocated,
        index == NIL ==> *final(fixed) == *old(fixed) && pool_view(*final(fixed), *final(dynamic))
            == pool_view(*old(fixed), *old(dynamic)) && market_inv(
            *final(fixed),
            *final(dynamic),
            Set::empty(),
        ),
        index != NIL ==> {
            &&& market_inv(*final(fixed), *final(dynamic), set![index])
            &&& slot_ok(index, old(dynamic).slots@.len())
            &&& slot_at(old(dynamic).slots@, index) is Empty
            &&& free_list(*old(fixed), *old(dynamic))[0] == index
            &&& pool_view(*final(fixed), *final(dynamic)) == (PoolView {
                free: free_list(*old(fixed), *old(dynamic)).drop_first(),
                ..pool_view(*old(fixed), *old(dynamic))
            })
        },
{
    get_free_address_on_market_fixed(fixed, dynamic)
}

/// Takes back the slot of a seat: see `release_address_on_market_fixed`.
pub fn release_address_on_market_fixed_for_seat(
    fixed: &mut MarketFixed,
    dynamic: &mut MarketDynamic,
    index: DataIndex,
)
    requires
        market_inv(*old(fixed), *old(dynamic), set![index]),
        slot_ok(index, old(dynamic).slots@.len()),
    ensures
        market_inv(*final(fixed), *final(dynamic), Set::empty()),
        same_settings(*old(fixed), *final(fixed)),
        crate::market::indexes_kept(*old(fixed), *final(fixed), Set::empty()),
        final(fixed).num_bytes_allocated == old(fixed).num_bytes_allocated,
        final(fixed).free_list_head_index == index,
        pool_view(*final(fixed), *final(dynamic)) == (PoolView {
            free: seq![index] + free_list(*old(fixed), *old(dynamic)),
            slots: old(dynamic).slots@.update(index as int / BLOCK as int, MarketSlot::Empty),
            ..pool_view(*old(fixed), *old(dynamic))
        }),
{
    release_address_on_market_fixed(fixed, dynamic, index)
}

/// Takes back the slot of a bid: see `release_address_on_market_fixed`.
pub fn release_address_on_market_fixed_for_bid_order(
    fixed: &mut MarketFixed,
    dynamic: &mut MarketDynamic,
    index: DataIndex,
)
    requires
        market_inv(*old(fixed), *old(dynamic), set![index]),
        slot_ok(index, old(dynamic).slots@.len()),
    ensures
        market_inv(*final(fixed), *final(dynamic), Set::empty()),
        same_settings(*old(fixed), *final(fixed)),
        crate::market::indexes_kept(*old(fixed), *final(fixed), Set::empty()),
        final(fixed).num_bytes_allocated == old(fixed).num_bytes_allocated,
        final(fixed).free_list_head_index == index,
        pool_view(*final(fixed), *final(dynamic)) == (PoolView {
            free: seq![index] + free_list(*old(fixed), *old(dynamic)),
            slots: old(dynamic).slots@.update(index as int / BLOCK as int, MarketSlot::Empty),
            ..pool_view(*old(fixed), *old(dynamic))
        }),
{
    release_address_on_market_fixed(fixed, dynamic, index)
}

/// Takes back the slot of an ask: see `release_address_on_market_fixed`.
pub fn release_address_on_market_fixed_for_ask_order(
    fixed: &mut MarketFixed,
    dynamic: &mut MarketDynamic,
    index: DataIndex,
)
    requires
        market_inv(*old(fixed), *old(dynamic), set![index]),
        slot_ok(index, old(dynamic).slots@.len()),
    ensures
        market_inv(*final(fixed), *final(dynamic), Set::empty()),
        same_settings(*old(fixed), *final(fixed)),
        crate::market::indexes_kept(*old(fixed), *final(fixed), Set::empty()),
        final(fixed).num_bytes_allocated == old(fixed).num_bytes_allocated,
        final(fixed).free_list_head_index == index,
        pool_view(*final(fixed), *final(dynamic)) == (PoolView {
            free: seq![index] + free_list(*old(fixed), *old(dynamic)),
            slots: old(dynamic).slots@.update(index as int / BLOCK as int, MarketSlot::Empty),
            ..pool_view(*old(fixed), *old(dynamic))
        }),
{
    release_address_on_market_fixed(fixed, dynamic, index)
}

/// The seat in the slot at `index`.
pub fn get_helper_seat(dynamic: &MarketDynamic, index: DataIndex) -> (r: &ClaimedSeat)
    requires
        slot_ok(index, dynamic.slots@.len()),
        slot_at(dynamic.slots@, index) is Seat,
    ensures
        *r == seat_in(slot_at(dynamic.slots@, index)),
{
    match &dynamic.slots[(index / BLOCK) as usize] {
        MarketSlot::Seat(s) => s,
        _ => { vstd::pervasive::unreached() },
    }
}

/// The order in the slot at `index`.
pub fn get_helper_order(dynamic: &MarketDynamic, index: DataIndex) -> (r: &RestingOrder)
    requires
        slot_ok(index, dynamic.slots@.len()),
        slot_at(dynamic.slots@, index) is Order,
    ensures
        *r == order_in(slot_at(dynamic.slots@, index)),
{
    match &dynamic.slots[(index / BLOCK) as usize] {
        MarketSlot::Order(o) => o,
        _ => { vstd::pervasive::unreached() },
    }
}

/// The bid in the slot at `index`.
pub fn get_helper_bid_order(dynamic: &MarketDynamic, index: DataIndex) -> (r: &RestingOrder)
    requires
        slot_ok(index, dynamic.slots@.len()),
        slot_at(dynamic.slots@, index) is Order,
    ensures
        *r == order_in(slot_at(dynamic.slots@, index)),
{
    get_helper_order(dynamic, index)
}

/// The ask in the slot at `index`.
pub fn get_helper_ask_order(dynamic: &MarketDynamic, index: DataIndex) -> (r: &RestingOrder)
    requires
        slot_ok(index, dynamic.slots@.len()),
        slot_at(dynamic.slots@, index) is Order,
    ensures
        *r == order_in(slot_at(dynamic.slots@, index)),
{
    get_helper_order(dynamic, index)
}

} // verus!
