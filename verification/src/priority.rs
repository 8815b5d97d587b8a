//! The order in which prioritized steps are applied.
//!
//! Steps are discovered in some order (their position in a snapshot) and each
//! carries a signed priority. They are applied by ascending priority; steps of
//! equal priority are applied in the order of their discovery.

use vstd::prelude::*;

verus! {

/// Step `i` is applied before step `j`: it has the lower priority, or the same
/// priority and the earlier position in the snapshot.
pub open spec fn applies_before(priorities: Seq<i64>, i: int, j: int) -> bool {
    priorities[i] < priorities[j] || (priorities[i] == priorities[j] && i < j)
}

/// Position `i` occurs in `places`.
pub open spec fn lists(places: Seq<usize>, i: int) -> bool {
    exists|k: int| 0 <= k < places.len() && #[trigger] places[k] == i
}

/// `order` lists the first `n` snapshot positions, each once, in the order of
/// application.
pub open spec fn orders_prefix(priorities: Seq<i64>, n: int, order: Seq<usize>) -> bool {
    &&& order.len() == n
    &&& forall|k: int| 0 <= k < order.len() ==> (#[trigger] order[k]) < n
    &&& forall|i: int| 0 <= i < n ==> #[trigger] lists(order, i)
    &&& forall|a: int, b: int|
        0 <= a < b < order.len() ==> applies_before(
            priorities,
            #[trigger] order[a] as int,
            #[trigger] order[b] as int,
        )
}

/// `order` is the application order of a snapshot with these priorities: a
/// rearrangement of all its positions, ascending by priority, ties in
/// discovery order.
pub open spec fn is_application_order(priorities: Seq<i64>, order: Seq<usize>) -> bool {
    orders_prefix(priorities, priorities.len() as int, order)
}

/// Putting position `n` behind every listed step whose priority is not higher
/// extends an application order of the first `n` positions by one.
proof fn lemma_insert_extends(priorities: Seq<i64>, n: int, order: Seq<usize>, slot: int)
    requires
        0 <= n < priorities.len(),
        n <= usize::MAX,
        orders_prefix(priorities, n, order),
        0 <= slot <= n,
        forall|k: int| 0 <= k < slot ==> priorities[#[trigger] order[k] as int] <= priorities[n],
        forall|k: int| slot <= k < n ==> priorities[#[trigger] order[k] as int] > priorities[n],
    ensures
        orders_prefix(priorities, n + 1, order.insert(slot, n as usize)),
{
    let grown = order.insert(slot, n as usize);
    assert forall|i: int| 0 <= i < n + 1 implies #[trigger] lists(grown, i) by {
        if i < n {
            assert(lists(order, i));
            let k = choose|k: int| 0 <= k < order.len() && order[k] == i;
            if k < slot {
                assert(grown[k] == i);
            } else {
                assert(grown[k + 1] == i);
            }
        } else {
            assert(grown[slot] == i);
        }
    }
    assert forall|a: int, b: int| 0 <= a < b < grown.len() implies applies_before(
        priorities,
        #[trigger] grown[a] as int,
        #[trigger] grown[b] as int,
    ) by {
        let before = if a < slot { a } else { a - 1 };
        let after = if b < slot { b } else { b - 1 };
        if a != slot && b != slot {
            assert(grown[a] == order[before]);
            assert(grown[b] == order[after]);
        } else if a == slot {
            assert(grown[b] == order[after]);
        } else {
            assert(grown[a] == order[before]);
        }
    }
}

/// Behind the first `upto` entries of an application order of the first `n`
/// positions there is a slot for position `n`: no entry before the slot has a
/// higher priority, every entry from the slot on has.
proof fn lemma_slot_exists(priorities: Seq<i64>, n: int, order: Seq<usize>, upto: int) -> (slot:
    int)
    requires
        0 <= n < priorities.len(),
        orders_prefix(priorities, n, order),
        0 <= upto <= n,
        forall|k: int| upto <= k < n ==> priorities[#[trigger] order[k] as int] > priorities[n],
    ensures
        0 <= slot <= n,
        forall|k: int| 0 <= k < slot ==> priorities[#[trigger] order[k] as int] <= priorities[n],
        forall|k: int| slot <= k < n ==> priorities[#[trigger] order[k] as int] > priorities[n],
    decreases upto,
{
    if upto > 0 && priorities[order[upto - 1] as int] > priorities[n] {
        lemma_slot_exists(priorities, n, order, upto - 1)
    } else {
        assert forall|k: int| 0 <= k < upto implies priorities[#[trigger] order[k] as int]
            <= priorities[n] by {
            if k < upto - 1 {
                assert(applies_before(priorities, order[k] as int, order[upto - 1] as int));
            }
        }
        upto
    }
}

/// The first `n` positions of a snapshot have an application order.
proof fn lemma_prefix_has_order(priorities: Seq<i64>, n: int) -> (order: Seq<usize>)
    requires
        0 <= n <= priorities.len(),
        n <= usize::MAX,
    ensures
        orders_prefix(priorities, n, order),
    decreases n,
{
    if n == 0 {
        Seq::empty()
    } else {
        let shorter = lemma_prefix_has_order(priorities, n - 1);
        let slot = lemma_slot_exists(priorities, n - 1, shorter, n - 1);
        lemma_insert_extends(priorities, n - 1, shorter, slot);
        shorter.insert(slot, (n - 1) as usize)
    }
}

/// The application order of a snapshot with these priorities.
pub open spec fn application_order_of(priorities: Seq<i64>) -> Seq<usize> {
    choose|order: Seq<usize>| is_application_order(priorities, order)
}

/// Every snapshot whose positions fit the machine's index type has an
/// application order, and `application_order_of` names it.
pub proof fn lemma_application_order_exists(priorities: Seq<i64>)
    requires
        priorities.len() <= usize::MAX,
    ensures
        is_application_order(priorities, application_order_of(priorities)),
{
    let order = lemma_prefix_has_order(priorities, priorities.len() as int);
    assert(is_application_order(priorities, order));
}

/// Computes the order in which the steps of a snapshot are applied.
pub fn application_order(priorities: &Vec<i64>) -> (order: Vec<usize>)
    ensures
        is_application_order(priorities@, order@),
        order@ == application_order_of(priorities@),
{
    let mut order: Vec<usize> = Vec::new();
    let mut next: usize = 0;
    while next < priorities.len()
        invariant
            next <= priorities.len(),
            orders_prefix(priorities@, next as int, order@),
        decreases priorities.len() - next,
    {
        let mut slot: usize = order.len();
        while slot > 0 && priorities[order[slot - 1]] > priorities[next]
            invariant
                next < priorities.len(),
                slot <= order.len(),
                orders_prefix(priorities@, next as int, order@),
                forall|k: int|
                    slot <= k < order.len() ==> priorities@[#[trigger] order@[k] as int]
                        > priorities@[next as int],
            decreases slot,
        {
            slot -= 1;
        }
        proof {
            assert forall|k: int| 0 <= k < slot implies priorities@[#[trigger] order@[k] as int]
                <= priorities@[next as int] by {
                if k < slot - 1 {
                    assert(applies_before(
                        priorities@,
                        order@[k] as int,
                        order@[slot - 1] as int,
                    ));
                }
            }
            lemma_insert_extends(priorities@, next as int, order@, slot as int);
        }
        order.insert(slot, next);
        next += 1;
    }
    proof {
        assert(is_application_order(priorities@, order@));
        lemma_application_order_is_unique(
            priorities@,
            order@,
            application_order_of(priorities@),
        );
    }
    order
}

/// No two steps of the snapshot share a priority.
pub open spec fn distinct_priorities(priorities: Seq<i64>) -> bool {
    forall|i: int, j: int|
        0 <= i < j < priorities.len() ==> #[trigger] priorities[i] != #[trigger] priorities[j]
}

/// `places` rearranges `n` positions: it names each of them exactly once.
pub open spec fn is_rearrangement(places: Seq<usize>, n: int) -> bool {
    &&& places.len() == n
    &&& forall|k: int| 0 <= k < places.len() ==> (#[trigger] places[k]) < n
    &&& forall|a: int, b: int|
        0 <= a < b < places.len() ==> #[trigger] places[a] != #[trigger] places[b]
    &&& forall|i: int| 0 <= i < n ==> #[trigger] lists(places, i)
}

/// Two application orders of one snapshot agree on their first `upto` entries.
proof fn lemma_orders_agree(priorities: Seq<i64>, first: Seq<usize>, second: Seq<usize>, upto: int)
    requires
        is_application_order(priorities, first),
        is_application_order(priorities, second),
        0 <= upto <= priorities.len(),
    ensures
        forall|k: int| 0 <= k < upto ==> first[k] == second[k],
    decreases upto,
{
    if upto > 0 {
        lemma_orders_agree(priorities, first, second, upto - 1);
        let k = upto - 1;
        if first[k] != second[k] {
            assert(lists(second, first[k] as int));
            let m = choose|m: int| 0 <= m < second.len() && second[m] == first[k];
            assert(lists(first, second[k] as int));
            let w = choose|w: int| 0 <= w < first.len() && first[w] == second[k];
            if m < k {
                assert(applies_before(priorities, first[m] as int, first[k] as int));
            }
            if w < k {
                assert(applies_before(priorities, second[w] as int, second[k] as int));
            }
            assert(applies_before(priorities, second[k] as int, second[m] as int));
            assert(applies_before(priorities, first[k] as int, first[w] as int));
        }
    }
}

/// A snapshot has one application order only.
pub proof fn lemma_application_order_is_unique(
    priorities: Seq<i64>,
    first: Seq<usize>,
    second: Seq<usize>,
)
    requires
        is_application_order(priorities, first),
        is_application_order(priorities, second),
    ensures
        first == second,
{
    lemma_orders_agree(priorities, first, second, priorities.len() as int);
    assert(first =~= second);
}

/// Of two steps with the same priority, the one discovered first is applied
/// first: if position `i` precedes position `j` in the snapshot, it also
/// precedes it in the application order.
pub proof fn lemma_ties_keep_discovery_order(
    priorities: Seq<i64>,
    order: Seq<usize>,
    i: int,
    j: int,
    at_i: int,
    at_j: int,
)
    requires
        is_application_order(priorities, order),
        0 <= i < j < priorities.len(),
        priorities[i] == priorities[j],
        0 <= at_i < order.len(),
        0 <= at_j < order.len(),
        order[at_i] == i,
        order[at_j] == j,
    ensures
        at_i < at_j,
{
    if at_j < at_i {
        assert(applies_before(priorities, order[at_j] as int, order[at_i] as int));
    }
}

/// Two steps of the same priority with no step of that priority discovered
/// between them are applied one right after the other.
pub proof fn lemma_neighbouring_ties_are_applied_in_a_row(
    priorities: Seq<i64>,
    order: Seq<usize>,
    i: int,
    j: int,
    at_i: int,
    at_j: int,
)
    requires
        is_application_order(priorities, order),
        0 <= i < j < priorities.len(),
        priorities[i] == priorities[j],
        forall|between: int| i < between < j ==> #[trigger] priorities[between] != priorities[i],
        0 <= at_i < order.len(),
        0 <= at_j < order.len(),
        order[at_i] == i,
        order[at_j] == j,
    ensures
        at_j == at_i + 1,
{
    lemma_ties_keep_discovery_order(priorities, order, i, j, at_i, at_j);
    if at_j > at_i + 1 {
        let between = order[at_i + 1] as int;
        assert(applies_before(priorities, order[at_i] as int, order[at_i + 1] as int));
        assert(applies_before(priorities, order[at_i + 1] as int, order[at_j] as int));
        assert(priorities[between] == priorities[i]);
    }
}

/// Steps are applied by ascending priority: a step of lower priority stands
/// earlier in the application order than any step of higher priority.
pub proof fn lemma_lower_priority_applies_first(
    priorities: Seq<i64>,
    order: Seq<usize>,
    at_low: int,
    at_high: int,
)
    requires
        is_application_order(priorities, order),
        0 <= at_low < order.len(),
        0 <= at_high < order.len(),
        priorities[order[at_low] as int] < priorities[order[at_high] as int],
    ensures
        at_low < at_high,
{
    if at_high < at_low {
        assert(applies_before(priorities, order[at_high] as int, order[at_low] as int));
    }
}

/// With distinct priorities the application order does not depend on the
/// order of discovery. Let a second snapshot hold the steps of the first at
/// other positions, its position `p` holding what the first holds at
/// `places[p]`. Then the step applied `k`-th is the same in both.
pub proof fn lemma_discovery_order_is_irrelevant(
    priorities: Seq<i64>,
    rearranged: Seq<i64>,
    places: Seq<usize>,
    order: Seq<usize>,
    rearranged_order: Seq<usize>,
)
    requires
        distinct_priorities(priorities),
        is_rearrangement(places, priorities.len() as int),
        rearranged.len() == priorities.len(),
        forall|p: int|
            0 <= p < rearranged.len() ==> #[trigger] rearranged[p] == priorities[places[p] as int],
        is_application_order(priorities, order),
        is_application_order(rearranged, rearranged_order),
    ensures
        forall|k: int|
            0 <= k < order.len() ==> #[trigger] order[k] == places[rearranged_order[k] as int],
{
    let n = priorities.len() as int;
    let through = Seq::new(n as nat, |k: int| places[rearranged_order[k] as int]);
    assert forall|i: int| 0 <= i < n implies #[trigger] lists(through, i) by {
        assert(lists(places, i));
        let p = choose|p: int| 0 <= p < places.len() && places[p] == i;
        assert(lists(rearranged_order, p));
        let k = choose|k: int| 0 <= k < rearranged_order.len() && rearranged_order[k] == p;
        assert(through[k] == i);
    }
    assert forall|a: int, b: int| 0 <= a < b < through.len() implies applies_before(
        priorities,
        #[trigger] through[a] as int,
        #[trigger] through[b] as int,
    ) by {
        let pa = rearranged_order[a] as int;
        let pb = rearranged_order[b] as int;
        assert(applies_before(rearranged, pa, pb));
        assert(rearranged[pa] == priorities[places[pa] as int]);
        assert(rearranged[pb] == priorities[places[pb] as int]);
        if rearranged[pa] == rearranged[pb] {
            assert(pa < pb);
            assert(places[pa] != places[pb]);
            if places[pa] < places[pb] {
                assert(priorities[places[pa] as int] != priorities[places[pb] as int]);
            } else {
                assert(priorities[places[pb] as int] != priorities[places[pa] as int]);
            }
        }
    }
    lemma_application_order_is_unique(priorities, order, through);
}

} // verus!
