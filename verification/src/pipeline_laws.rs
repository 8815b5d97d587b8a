//! What holds of every tick of a modifier pipeline.

use vstd::prelude::*;
use crate::pipeline::{
    accepted, handles, in_application_order, is_run, is_tick_record, priorities_of, runs_to,
    ticks_to, Modifier, ModifierPipeline,
};
use crate::priority::{
    application_order_of, applies_before, distinct_priorities, is_rearrangement, lists,
    lemma_application_order_exists, lemma_discovery_order_is_irrelevant,
    lemma_neighbouring_ties_are_applied_in_a_row,
};

verus! {

/// Modifiers are applied by ascending priority, and modifiers of equal
/// priority in the order in which the snapshot holds them: of two places of
/// the application order, the earlier one holds the modifier of lower
/// priority, or of the same priority and the earlier position in the snapshot.
pub proof fn lemma_application_order_ascends<F>(snapshot: Seq<Modifier<F>>, a: int, b: int)
    requires
        snapshot.len() <= usize::MAX,
        0 <= a < b < snapshot.len(),
    ensures
        in_application_order(snapshot).len() == snapshot.len(),
        in_application_order(snapshot)[a].priority <= in_application_order(snapshot)[b].priority,
        ({
            let order = application_order_of(priorities_of(snapshot));
            &&& in_application_order(snapshot)[a] == snapshot[order[a] as int]
            &&& in_application_order(snapshot)[b] == snapshot[order[b] as int]
            &&& in_application_order(snapshot)[a].priority == in_application_order(
                snapshot,
            )[b].priority ==> order[a] < order[b]
        }),
{
    let priorities = priorities_of(snapshot);
    let order = application_order_of(priorities);
    lemma_application_order_exists(priorities);
    assert(applies_before(priorities, order[a] as int, order[b] as int));
}

/// With distinct priorities the modifiers are applied in the same sequence
/// however the snapshot holds them. Let `rearranged` hold the modifiers of
/// `snapshot` at other positions, its position `p` holding what `snapshot`
/// holds at `places[p]`. Then both snapshots give the same sequence of
/// modifiers to apply.
pub proof fn lemma_attachment_order_is_irrelevant<F>(
    snapshot: Seq<Modifier<F>>,
    rearranged: Seq<Modifier<F>>,
    places: Seq<usize>,
)
    requires
        snapshot.len() <= usize::MAX,
        distinct_priorities(priorities_of(snapshot)),
        is_rearrangement(places, snapshot.len() as int),
        rearranged.len() == snapshot.len(),
        forall|p: int|
            0 <= p < rearranged.len() ==> #[trigger] rearranged[p] == snapshot[places[p] as int],
    ensures
        in_application_order(rearranged) == in_application_order(snapshot),
{
    let priorities = priorities_of(snapshot);
    let moved = priorities_of(rearranged);
    lemma_application_order_exists(priorities);
    lemma_application_order_exists(moved);
    let order = application_order_of(priorities);
    let moved_order = application_order_of(moved);
    assert forall|p: int| 0 <= p < moved.len() implies #[trigger] moved[p]
        == priorities[places[p] as int] by {
        assert(rearranged[p] == snapshot[places[p] as int]);
    }
    lemma_discovery_order_is_irrelevant(priorities, moved, places, order, moved_order);
    assert(in_application_order(rearranged) =~= in_application_order(snapshot)) by {
        assert forall|k: int| 0 <= k < order.len() implies in_application_order(rearranged)[k]
            == in_application_order(snapshot)[k] by {
            assert(order[k] == places[moved_order[k] as int]);
            let from = moved_order[k] as int;
            assert(rearranged[from] == snapshot[places[from] as int]);
        }
    }
}

/// With distinct priorities what a tick can emit does not depend on the order
/// in which the modifiers were attached: whatever a tick can lead to with one
/// snapshot, it can lead to with any rearrangement of it.
pub proof fn lemma_output_ignores_attachment_order<V, S, I, M, O, FO, FM, F>(
    pipeline: ModifierPipeline<V, FO, FM>,
    snapshot: Seq<Modifier<F>>,
    rearranged: Seq<Modifier<F>>,
    places: Seq<usize>,
    state: S,
    pending: Seq<I>,
    after: S,
    emitted: Seq<O>,
) where FO: Fn(S, &I) -> (S, Option<O>), FM: Fn(S, &I) -> (S, M), F: Fn(S, M, O) -> (S, M, O)
    requires
        snapshot.len() <= usize::MAX,
        distinct_priorities(priorities_of(snapshot)),
        is_rearrangement(places, snapshot.len() as int),
        rearranged.len() == snapshot.len(),
        forall|p: int|
            0 <= p < rearranged.len() ==> #[trigger] rearranged[p] == snapshot[places[p] as int],
    ensures
        ticks_to::<V, S, I, M, O, FO, FM, F>(
            pipeline,
            in_application_order(snapshot),
            state,
            pending,
            after,
            emitted,
        ) <==> ticks_to::<V, S, I, M, O, FO, FM, F>(
            pipeline,
            in_application_order(rearranged),
            state,
            pending,
            after,
            emitted,
        ),
{
    lemma_attachment_order_is_irrelevant(snapshot, rearranged, places);
}

/// Exchanging two modifiers of equal priority in the snapshot exchanges the
/// two in the sequence of application and moves no other modifier.
pub proof fn lemma_swapping_ties_swaps_application<F>(snapshot: Seq<Modifier<F>>, i: int, j: int)
    requires
        snapshot.len() <= usize::MAX,
        0 <= i < j < snapshot.len(),
        snapshot[i].priority == snapshot[j].priority,
    ensures
        ({
            let swapped = snapshot.update(i, snapshot[j]).update(j, snapshot[i]);
            let order = application_order_of(priorities_of(snapshot));
            &&& application_order_of(priorities_of(swapped)) == order
            &&& order.len() == snapshot.len()
            &&& forall|k: int|
                0 <= k < order.len() ==> #[trigger] in_application_order(swapped)[k] == (if order[k]
                    == i {
                    snapshot[j]
                } else if order[k] == j {
                    snapshot[i]
                } else {
                    in_application_order(snapshot)[k]
                })
        }),
{
    let swapped = snapshot.update(i, snapshot[j]).update(j, snapshot[i]);
    assert(priorities_of(swapped) =~= priorities_of(snapshot));
    lemma_application_order_exists(priorities_of(snapshot));
}

/// Declining short-circuits. Where the output initializer cannot but decline
/// an input, nothing is emitted for it. And where nothing is emitted for an
/// input, nothing but the output initializer was called: no metadata was
/// built and no modifier applied, the state after the input is the state
/// that the initializer left when it declined.
pub proof fn lemma_decline_short_circuits<V, S, I, M, O, FO, FM, F>(
    pipeline: ModifierPipeline<V, FO, FM>,
    steps: Seq<Modifier<F>>,
    state: S,
    input: I,
    after: S,
    emitted: Option<O>,
) where FO: Fn(S, &I) -> (S, Option<O>), FM: Fn(S, &I) -> (S, M), F: Fn(S, M, O) -> (S, M, O)
    requires
        handles::<V, S, I, M, O, FO, FM, F>(pipeline, steps, state, input, after, emitted),
    ensures
        (forall|begun: (S, Option<O>)|
            call_ensures(pipeline.init_output, (state, &input), begun) ==> begun.1 is None)
            ==> emitted is None,
        emitted is None ==> call_ensures(
            pipeline.init_output,
            (state, &input),
            (after, None::<O>),
        ),
{
    let begun = choose|begun: (S, Option<O>)|
        #[trigger] call_ensures(pipeline.init_output, (state, &input), begun) && match begun.1 {
            None => after == begun.0 && emitted is None,
            Some(first) => exists|built: (S, M), end: (S, M, O)|
                #[trigger] call_ensures(pipeline.init_metadata, (begun.0, &input), built)
                    && #[trigger] runs_to(steps, (built.0, built.1, first), end) && after == end.0
                    && emitted == Some(end.2),
        };
    if emitted is None {
        assert(begun.1 is None);
        assert(begun == (after, None::<O>));
    }
}

/// A tick with no pending input calls nothing and emits nothing.
pub proof fn lemma_idle_tick_does_nothing<V, S, I, M, O, FO, FM, F>(
    pipeline: ModifierPipeline<V, FO, FM>,
    steps: Seq<Modifier<F>>,
    state: S,
    after: S,
    emitted: Seq<O>,
) where FO: Fn(S, &I) -> (S, Option<O>), FM: Fn(S, &I) -> (S, M), F: Fn(S, M, O) -> (S, M, O)
    requires
        ticks_to::<V, S, I, M, O, FO, FM, F>(
            pipeline,
            steps,
            state,
            Seq::<I>::empty(),
            after,
            emitted,
        ),
    ensures
        after == state,
        emitted.len() == 0,
{
}

/// Applying `first` and then `second` can lead from `start` to `end`.
pub open spec fn leads_through<S, M, O, F: Fn(S, M, O) -> (S, M, O)>(
    first: Modifier<F>,
    second: Modifier<F>,
    start: (S, M, O),
    end: (S, M, O),
) -> bool {
    exists|between: (S, M, O)|
        #[trigger] call_ensures(first.mutate, start, between) && call_ensures(
            second.mutate,
            between,
            end,
        )
}

/// The two modifiers commute: applied in either order they can lead to the
/// same.
pub open spec fn commute<S, M, O, F: Fn(S, M, O) -> (S, M, O)>(
    one: Modifier<F>,
    other: Modifier<F>,
) -> bool {
    forall|start: (S, M, O), end: (S, M, O)| #[trigger]
        leads_through(one, other, start, end) == leads_through(other, one, start, end)
}

/// The steps with the one at `at` and its successor exchanged.
pub open spec fn exchanged<F>(steps: Seq<Modifier<F>>, at: int) -> Seq<Modifier<F>> {
    steps.update(at, steps[at + 1]).update(at + 1, steps[at])
}

/// Where two neighbouring steps commute, whatever the steps can lead to they
/// can lead to with the two exchanged.
proof fn lemma_exchange_keeps_runs<S, M, O, F: Fn(S, M, O) -> (S, M, O)>(
    steps: Seq<Modifier<F>>,
    at: int,
    start: (S, M, O),
    end: (S, M, O),
)
    requires
        0 <= at,
        at + 1 < steps.len(),
        commute::<S, M, O, F>(steps[at], steps[at + 1]),
        runs_to(steps, start, end),
    ensures
        runs_to(exchanged(steps, at), start, end),
{
    let trace = choose|trace: Seq<(S, M, O)>| #[trigger]
        is_run(steps, trace) && trace[0] == start && trace.last() == end;
    assert(call_ensures(steps[at].mutate, trace[at], trace[at + 1]));
    assert(call_ensures(steps[at + 1].mutate, trace[at + 1], trace[at + 2]));
    assert(leads_through(steps[at], steps[at + 1], trace[at], trace[at + 2]));
    assert(leads_through(steps[at + 1], steps[at], trace[at], trace[at + 2]));
    let between = choose|between: (S, M, O)|
        #[trigger] call_ensures(steps[at + 1].mutate, trace[at], between) && call_ensures(
            steps[at].mutate,
            between,
            trace[at + 2],
        );
    let other = trace.update(at + 1, between);
    let others = exchanged(steps, at);
    assert forall|k: int| 0 <= k < others.len() implies call_ensures(
        others[k].mutate,
        #[trigger] other[k],
        other[k + 1],
    ) by {
        if k != at && k != at + 1 {
            assert(call_ensures(steps[k].mutate, trace[k], trace[k + 1]));
        }
    }
    assert(is_run(others, other));
}

/// Where two neighbouring steps commute, whatever handling an input can lead
/// to it can lead to with the two exchanged.
proof fn lemma_exchange_keeps_handling<V, S, I, M, O, FO, FM, F>(
    pipeline: ModifierPipeline<V, FO, FM>,
    steps: Seq<Modifier<F>>,
    at: int,
    state: S,
    input: I,
    after: S,
    emitted: Option<O>,
) where FO: Fn(S, &I) -> (S, Option<O>), FM: Fn(S, &I) -> (S, M), F: Fn(S, M, O) -> (S, M, O)
    requires
        0 <= at,
        at + 1 < steps.len(),
        commute::<S, M, O, F>(steps[at], steps[at + 1]),
        handles::<V, S, I, M, O, FO, FM, F>(pipeline, steps, state, input, after, emitted),
    ensures
        handles::<V, S, I, M, O, FO, FM, F>(
            pipeline,
            exchanged(steps, at),
            state,
            input,
            after,
            emitted,
        ),
{
    let begun = choose|begun: (S, Option<O>)|
        #[trigger] call_ensures(pipeline.init_output, (state, &input), begun) && match begun.1 {
            None => after == begun.0 && emitted is None,
            Some(first) => exists|built: (S, M), end: (S, M, O)|
                #[trigger] call_ensures(pipeline.init_metadata, (begun.0, &input), built)
                    && #[trigger] runs_to(steps, (built.0, built.1, first), end) && after == end.0
                    && emitted == Some(end.2),
        };
    if let Some(first) = begun.1 {
        let (built, end) = choose|built: (S, M), end: (S, M, O)|
            #[trigger] call_ensures(pipeline.init_metadata, (begun.0, &input), built)
                && #[trigger] runs_to(steps, (built.0, built.1, first), end) && after == end.0
                && emitted == Some(end.2);
        lemma_exchange_keeps_runs(steps, at, (built.0, built.1, first), end);
    }
}

/// Where two neighbouring steps commute, whatever a tick can lead to it can
/// lead to with the two exchanged.
proof fn lemma_exchange_keeps_ticks<V, S, I, M, O, FO, FM, F>(
    pipeline: ModifierPipeline<V, FO, FM>,
    steps: Seq<Modifier<F>>,
    at: int,
    state: S,
    pending: Seq<I>,
    after: S,
    emitted: Seq<O>,
) where FO: Fn(S, &I) -> (S, Option<O>), FM: Fn(S, &I) -> (S, M), F: Fn(S, M, O) -> (S, M, O)
    requires
        0 <= at,
        at + 1 < steps.len(),
        commute::<S, M, O, F>(steps[at], steps[at + 1]),
        ticks_to::<V, S, I, M, O, FO, FM, F>(pipeline, steps, state, pending, after, emitted),
    ensures
        ticks_to::<V, S, I, M, O, FO, FM, F>(
            pipeline,
            exchanged(steps, at),
            state,
            pending,
            after,
            emitted,
        ),
{
    let (states, results) = choose|states: Seq<S>, results: Seq<Option<O>>| #[trigger]
        is_tick_record::<V, S, I, M, O, FO, FM, F>(pipeline, steps, pending, states, results)
            && states[0] == state && states.last() == after && emitted == accepted(results);
    assert forall|j: int| 0 <= j < pending.len() implies handles::<V, S, I, M, O, FO, FM, F>(
        pipeline,
        exchanged(steps, at),
        states[j],
        pending[j],
        states[j + 1],
        #[trigger] results[j],
    ) by {
        lemma_exchange_keeps_handling::<V, S, I, M, O, FO, FM, F>(
            pipeline,
            steps,
            at,
            states[j],
            pending[j],
            states[j + 1],
            results[j],
        );
    }
    assert(is_tick_record::<V, S, I, M, O, FO, FM, F>(
        pipeline,
        exchanged(steps, at),
        pending,
        states,
        results,
    ));
}

/// Exchanging two modifiers of equal priority in the snapshot changes what a
/// tick can lead to only if the two do not commute. Let no modifier of their
/// priority stand between the two in the snapshot, so that they are applied
/// one right after the other. If they commute, a tick can lead to the same
/// with the snapshot as with the two exchanged.
pub proof fn lemma_commuting_ties_may_swap<V, S, I, M, O, FO, FM, F>(
    pipeline: ModifierPipeline<V, FO, FM>,
    snapshot: Seq<Modifier<F>>,
    i: int,
    j: int,
    state: S,
    pending: Seq<I>,
    after: S,
    emitted: Seq<O>,
) where FO: Fn(S, &I) -> (S, Option<O>), FM: Fn(S, &I) -> (S, M), F: Fn(S, M, O) -> (S, M, O)
    requires
        snapshot.len() <= usize::MAX,
        0 <= i < j < snapshot.len(),
        snapshot[i].priority == snapshot[j].priority,
        forall|between: int|
            i < between < j ==> (#[trigger] snapshot[between]).priority != snapshot[i].priority,
        commute::<S, M, O, F>(snapshot[i], snapshot[j]),
    ensures
        ticks_to::<V, S, I, M, O, FO, FM, F>(
            pipeline,
            in_application_order(snapshot),
            state,
            pending,
            after,
            emitted,
        ) <==> ticks_to::<V, S, I, M, O, FO, FM, F>(
            pipeline,
            in_application_order(snapshot.update(i, snapshot[j]).update(j, snapshot[i])),
            state,
            pending,
            after,
            emitted,
        ),
{
    let swapped = snapshot.update(i, snapshot[j]).update(j, snapshot[i]);
    let priorities = priorities_of(snapshot);
    let order = application_order_of(priorities);
    let steps = in_application_order(snapshot);
    let others = in_application_order(swapped);
    lemma_application_order_exists(priorities);
    lemma_swapping_ties_swaps_application(snapshot, i, j);
    assert(lists(order, i));
    assert(lists(order, j));
    let at_i = choose|k: int| 0 <= k < order.len() && #[trigger] order[k] == i;
    let at_j = choose|k: int| 0 <= k < order.len() && #[trigger] order[k] == j;
    assert forall|between: int| i < between < j implies #[trigger] priorities[between]
        != priorities[i] by {
        assert(snapshot[between].priority != snapshot[i].priority);
    }
    lemma_neighbouring_ties_are_applied_in_a_row(priorities, order, i, j, at_i, at_j);
    assert(others =~= exchanged(steps, at_i)) by {
        assert forall|k: int| 0 <= k < order.len() implies others[k] == exchanged(
            steps,
            at_i,
        )[k] by {
            if k != at_i && k != at_j {
                if order[k] == i {
                    assert(applies_before(priorities, order[k] as int, order[at_i] as int)
                        || applies_before(priorities, order[at_i] as int, order[k] as int));
                }
                if order[k] == j {
                    assert(applies_before(priorities, order[k] as int, order[at_j] as int)
                        || applies_before(priorities, order[at_j] as int, order[k] as int));
                }
            }
        }
    }
    assert(steps =~= exchanged(others, at_i));
    assert(commute::<S, M, O, F>(others[at_i], others[at_i + 1])) by {
        assert forall|start: (S, M, O), end: (S, M, O)| #[trigger]
            leads_through(snapshot[j], snapshot[i], start, end) == leads_through(
                snapshot[i],
                snapshot[j],
                start,
                end,
            ) by {
            assert(leads_through(snapshot[i], snapshot[j], start, end) == leads_through(
                snapshot[j],
                snapshot[i],
                start,
                end,
            ));
        }
    }
    if ticks_to::<V, S, I, M, O, FO, FM, F>(pipeline, steps, state, pending, after, emitted) {
        lemma_exchange_keeps_ticks::<V, S, I, M, O, FO, FM, F>(
            pipeline,
            steps,
            at_i,
            state,
            pending,
            after,
            emitted,
        );
    }
    if ticks_to::<V, S, I, M, O, FO, FM, F>(pipeline, others, state, pending, after, emitted) {
        lemma_exchange_keeps_ticks::<V, S, I, M, O, FO, FM, F>(
            pipeline,
            others,
            at_i,
            state,
            pending,
            after,
            emitted,
        );
    }
}

} // verus!
