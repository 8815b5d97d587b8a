//! The event-modifier pipeline.
//!
//! Once per tick the pipeline takes the inputs that are pending and a snapshot
//! of the modifiers that are attached. Each input is offered to the output
//! initializer, which may decline it. For an accepted input the metadata
//! initializer builds the scratch state, every modifier of the snapshot is
//! applied to the running metadata and output in application order, and the
//! finished output is emitted.
//!
//! Callbacks are ordinary functions. What they do to the world around them is
//! modelled by a state of type `S` that each of them takes and hands back, so
//! that a contract can say which calls were made and in what order.

use vstd::prelude::*;
use crate::config::{
    parse_pipeline_attributes, pipeline_names, verdict, Attribute, ConfigError, ConfigErrorView,
    PipelineKinds,
};
use crate::priority::{application_order, application_order_of, is_application_order};

verus! {

/// A prioritized, pluggable mutation step.
pub struct Modifier<F> {
    pub priority: i64,
    pub mutate: F,
}

/// The priorities of a snapshot, position by position.
pub open spec fn priorities_of<F>(snapshot: Seq<Modifier<F>>) -> Seq<i64> {
    snapshot.map_values(|step: Modifier<F>| step.priority)
}

/// The modifiers of `snapshot` in the sequence in which `order` names them.
pub open spec fn arranged<F>(snapshot: Seq<Modifier<F>>, order: Seq<usize>) -> Seq<Modifier<F>> {
    order.map_values(|place: usize| snapshot[place as int])
}

/// The modifiers of a snapshot in the sequence in which they are applied.
pub open spec fn in_application_order<F>(snapshot: Seq<Modifier<F>>) -> Seq<Modifier<F>> {
    arranged(snapshot, application_order_of(priorities_of(snapshot)))
}

/// What a list of borrowed modifiers refers to.
pub open spec fn borrowed<F>(steps: Seq<&Modifier<F>>) -> Seq<Modifier<F>> {
    steps.map_values(|step: &Modifier<F>| *step)
}

/// The modifier may be called on every state.
pub open spec fn callable<S, M, O, F: Fn(S, M, O) -> (S, M, O)>(step: Modifier<F>) -> bool {
    forall|state: S, metadata: M, output: O| call_requires(step.mutate, (state, metadata, output))
}

/// `trace` records one application of `steps`, first to last: it starts with
/// the state before the first step and holds the state after each step.
pub open spec fn is_run<S, M, O, F: Fn(S, M, O) -> (S, M, O)>(
    steps: Seq<Modifier<F>>,
    trace: Seq<(S, M, O)>,
) -> bool {
    &&& trace.len() == steps.len() + 1
    &&& forall|k: int|
        0 <= k < steps.len() ==> call_ensures(steps[k].mutate, #[trigger] trace[k], trace[k + 1])
}

/// Applying `steps` one after another, each exactly once, can lead from
/// `start` to `end`.
pub open spec fn runs_to<S, M, O, F: Fn(S, M, O) -> (S, M, O)>(
    steps: Seq<Modifier<F>>,
    start: (S, M, O),
    end: (S, M, O),
) -> bool {
    exists|trace: Seq<(S, M, O)>| #[trigger]
        is_run(steps, trace) && trace[0] == start && trace.last() == end
}

/// Sorts a snapshot into application order, leaving the snapshot as it is.
pub fn arrange<'a, F>(snapshot: &'a Vec<Modifier<F>>) -> (steps: Vec<&'a Modifier<F>>)
    ensures
        borrowed(steps@) == in_application_order(snapshot@),
        steps@.len() == snapshot@.len(),
        forall|k: int| 0 <= k < steps@.len() ==> snapshot@.contains(*#[trigger] steps@[k]),
{
    let mut priorities: Vec<i64> = Vec::new();
    let mut place: usize = 0;
    while place < snapshot.len()
        invariant
            place <= snapshot.len(),
            priorities@ == priorities_of(snapshot@).take(place as int),
        decreases snapshot.len() - place,
    {
        priorities.push(snapshot[place].priority);
        place += 1;
    }
    assert(priorities@ == priorities_of(snapshot@));
    let order = application_order(&priorities);
    let mut steps: Vec<&'a Modifier<F>> = Vec::new();
    let mut k: usize = 0;
    while k < order.len()
        invariant
            k <= order.len(),
            is_application_order(priorities_of(snapshot@), order@),
            borrowed(steps@) == arranged(snapshot@, order@).take(k as int),
            steps@.len() == k,
            forall|j: int| 0 <= j < steps@.len() ==> snapshot@.contains(*#[trigger] steps@[j]),
        decreases order.len() - k,
    {
        let ghost before = steps@;
        steps.push(&snapshot[order[k]]);
        assert(borrowed(steps@) =~= borrowed(before).push(snapshot@[order@[k as int] as int]));
        assert(borrowed(steps@) =~= arranged(snapshot@, order@).take(k as int + 1));
        k += 1;
    }
    assert(borrowed(steps@) == arranged(snapshot@, order@));
    steps
}

/// Applies the given modifiers one after another, each to what its
/// predecessor left.
pub fn apply_all<S, M, O, F: Fn(S, M, O) -> (S, M, O)>(
    steps: &Vec<&Modifier<F>>,
    state: S,
    metadata: M,
    output: O,
) -> (end: (S, M, O))
    requires
        forall|k: int| 0 <= k < steps.len() ==> callable::<S, M, O, F>(*#[trigger] steps[k]),
    ensures
        runs_to(borrowed(steps@), (state, metadata, output), end),
{
    let ghost mut trace: Seq<(S, M, O)> = seq![(state, metadata, output)];
    let mut running = (state, metadata, output);
    let mut k: usize = 0;
    while k < steps.len()
        invariant
            k <= steps.len(),
            forall|j: int| 0 <= j < steps.len() ==> callable::<S, M, O, F>(*#[trigger] steps[j]),
            is_run(borrowed(steps@).take(k as int), trace),
            trace[0] == (state, metadata, output),
            trace.last() == running,
        decreases steps.len() - k,
    {
        let step = steps[k];
        assert(callable::<S, M, O, F>(*steps[k as int]));
        let next = (step.mutate)(running.0, running.1, running.2);
        proof {
            let longer = trace.push(next);
            let done = borrowed(steps@).take(k as int + 1);
            assert forall|j: int| 0 <= j < done.len() implies call_ensures(
                done[j].mutate,
                #[trigger] longer[j],
                longer[j + 1],
            ) by {
                if j < k {
                    assert(borrowed(steps@).take(k as int)[j] == done[j]);
                    assert(longer[j] == trace[j]);
                    assert(longer[j + 1] == trace[j + 1]);
                }
            }
            trace = longer;
        }
        running = next;
        k += 1;
    }
    assert(borrowed(steps@).take(k as int) == borrowed(steps@));
    running
}

/// The handler of one pipeline: the kinds that its registration declared,
/// and the two initializers that it wires to the tick.
pub struct ModifierPipeline<V, FO, FM> {
    pub kinds: PipelineKinds<V>,
    pub init_output: FO,
    pub init_metadata: FM,
}

/// The outputs of the accepted inputs, in the order of the inputs.
pub open spec fn accepted<O>(results: Seq<Option<O>>) -> Seq<O>
    decreases results.len(),
{
    if results.len() == 0 {
        Seq::empty()
    } else {
        match results.last() {
            Some(output) => accepted(results.drop_last()).push(output),
            None => accepted(results.drop_last()),
        }
    }
}

/// Handling `input` in `state` with the modifiers `steps` can leave the state
/// `after` and emit `emitted`.
///
/// The output initializer is called first. If it declines, nothing else is
/// called and nothing is emitted. Otherwise the metadata initializer is called,
/// then each of `steps` in turn, and the output that the last one leaves is
/// emitted; the metadata is dropped.
pub open spec fn handles<V, S, I, M, O, FO, FM, F>(
    pipeline: ModifierPipeline<V, FO, FM>,
    steps: Seq<Modifier<F>>,
    state: S,
    input: I,
    after: S,
    emitted: Option<O>,
) -> bool where
    FO: Fn(S, &I) -> (S, Option<O>),
    FM: Fn(S, &I) -> (S, M),
    F: Fn(S, M, O) -> (S, M, O),
 {
    exists|begun: (S, Option<O>)|
        #[trigger] call_ensures(pipeline.init_output, (state, &input), begun) && match begun.1 {
            None => after == begun.0 && emitted is None,
            Some(first) => exists|built: (S, M), end: (S, M, O)|
                #[trigger] call_ensures(pipeline.init_metadata, (begun.0, &input), built)
                    && #[trigger] runs_to(steps, (built.0, built.1, first), end) && after == end.0
                    && emitted == Some(end.2),
        }
}

/// `states` and `results` record one tick over `pending`: the state before
/// the first input and after each input, and what each input led to.
pub open spec fn is_tick_record<V, S, I, M, O, FO, FM, F>(
    pipeline: ModifierPipeline<V, FO, FM>,
    steps: Seq<Modifier<F>>,
    pending: Seq<I>,
    states: Seq<S>,
    results: Seq<Option<O>>,
) -> bool where
    FO: Fn(S, &I) -> (S, Option<O>),
    FM: Fn(S, &I) -> (S, M),
    F: Fn(S, M, O) -> (S, M, O),
 {
    &&& states.len() == pending.len() + 1
    &&& results.len() == pending.len()
    &&& forall|j: int|
        0 <= j < pending.len() ==> handles::<V, S, I, M, O, FO, FM, F>(
            pipeline,
            steps,
            states[j],
            pending[j],
            states[j + 1],
            #[trigger] results[j],
        )
}

/// A tick that handles the inputs `pending`, in the order in which they were
/// queued, with the modifiers `steps` can lead from `state` to `after` and
/// emit `emitted`.
pub open spec fn ticks_to<V, S, I, M, O, FO, FM, F>(
    pipeline: ModifierPipeline<V, FO, FM>,
    steps: Seq<Modifier<F>>,
    state: S,
    pending: Seq<I>,
    after: S,
    emitted: Seq<O>,
) -> bool where
    FO: Fn(S, &I) -> (S, Option<O>),
    FM: Fn(S, &I) -> (S, M),
    F: Fn(S, M, O) -> (S, M, O),
 {
    exists|states: Seq<S>, results: Seq<Option<O>>| #[trigger]
        is_tick_record::<V, S, I, M, O, FO, FM, F>(pipeline, steps, pending, states, results)
            && states[0] == state && states.last() == after && emitted == accepted(results)
}

impl<V, FO, FM> ModifierPipeline<V, FO, FM> {
    /// Both initializers may be called on every state and input.
    pub open spec fn ready<S, I, M, O>(self) -> bool where
        FO: Fn(S, &I) -> (S, Option<O>),
        FM: Fn(S, &I) -> (S, M),
     {
        forall|state: S, input: I|
            call_requires(self.init_output, (state, &input)) && call_requires(
                self.init_metadata,
                (state, &input),
            )
    }

    /// Registers a pipeline: reads the kinds that `attributes` declare and
    /// wires the two initializers into a handler. The registration is refused
    /// where the attributes do not declare every kind, or declare an unknown
    /// one.
    pub fn register(
        attributes: Vec<Attribute<V>>,
        init_output: FO,
        init_metadata: FM,
    ) -> (registered: Result<Self, ConfigError>)
        ensures
            match registered {
                Ok(pipeline) => {
                    &&& pipeline.init_output == init_output
                    &&& pipeline.init_metadata == init_metadata
                    &&& verdict(attributes@, pipeline_names()) == Ok::<Seq<V>, ConfigErrorView>(
                        seq![
                            pipeline.kinds.component,
                            pipeline.kinds.input,
                            pipeline.kinds.metadata,
                            pipeline.kinds.output,
                            pipeline.kinds.priority,
                        ],
                    )
                },
                Err(error) => verdict(attributes@, pipeline_names()) == Err::<
                    Seq<V>,
                    ConfigErrorView,
                >(error@),
            },
    {
        match parse_pipeline_attributes(attributes) {
            Ok(kinds) => Ok(ModifierPipeline { kinds, init_output, init_metadata }),
            Err(error) => Err(error),
        }
    }

    /// Whether the handler is to run in a tick with this many pending inputs.
    pub fn run_condition(pending: usize) -> (run: bool)
        ensures
            run == (pending > 0),
    {
        pending > 0
    }

    /// Handles one input with modifiers that are already in application order.
    pub fn process<S, I, M, O, F>(
        &self,
        state: S,
        input: &I,
        steps: &Vec<&Modifier<F>>,
    ) -> (out: (S, Option<O>)) where
        FO: Fn(S, &I) -> (S, Option<O>),
        FM: Fn(S, &I) -> (S, M),
        F: Fn(S, M, O) -> (S, M, O),

        requires
            self.ready::<S, I, M, O>(),
            forall|k: int| 0 <= k < steps.len() ==> callable::<S, M, O, F>(*#[trigger] steps[k]),
        ensures
            handles::<V, S, I, M, O, FO, FM, F>(
                *self,
                borrowed(steps@),
                state,
                *input,
                out.0,
                out.1,
            ),
    {
        let begun = (self.init_output)(state, input);
        match begun.1 {
            None => (begun.0, None),
            Some(first) => {
                let built = (self.init_metadata)(begun.0, input);
                let end = apply_all(steps, built.0, built.1, first);
                (end.0, Some(end.2))
            },
        }
    }

    /// Runs the handler for one tick: every pending input is handled, in the
    /// order in which it was queued, with the modifiers of the snapshot in
    /// application order. With nothing pending the snapshot is not looked at.
    pub fn tick<S, I, M, O, F>(
        &self,
        state: S,
        pending: &Vec<I>,
        snapshot: &Vec<Modifier<F>>,
    ) -> (out: (S, Vec<O>)) where
        FO: Fn(S, &I) -> (S, Option<O>),
        FM: Fn(S, &I) -> (S, M),
        F: Fn(S, M, O) -> (S, M, O),

        requires
            self.ready::<S, I, M, O>(),
            forall|place: int|
                0 <= place < snapshot.len() ==> callable::<S, M, O, F>(#[trigger] snapshot[place]),
        ensures
            ticks_to::<V, S, I, M, O, FO, FM, F>(
                *self,
                in_application_order(snapshot@),
                state,
                pending@,
                out.0,
                out.1@,
            ),
            pending@.len() == 0 ==> out.0 == state && out.1@.len() == 0,
            out.1@.len() <= pending@.len(),
    {
        let ghost mut states: Seq<S> = seq![state];
        let ghost mut results: Seq<Option<O>> = Seq::empty();
        let mut emitted: Vec<O> = Vec::new();
        if pending.len() == 0 {
            proof {
                assert(is_tick_record::<V, S, I, M, O, FO, FM, F>(
                    *self,
                    in_application_order(snapshot@),
                    pending@,
                    states,
                    results,
                ));
            }
            return (state, emitted);
        }
        let steps = arrange(snapshot);
        let mut running = state;
        let mut j: usize = 0;
        while j < pending.len()
            invariant
                j <= pending.len(),
                self.ready::<S, I, M, O>(),
                forall|k: int|
                    0 <= k < steps.len() ==> callable::<S, M, O, F>(*#[trigger] steps[k]),
                borrowed(steps@) == in_application_order(snapshot@),
                is_tick_record::<V, S, I, M, O, FO, FM, F>(
                    *self,
                    in_application_order(snapshot@),
                    pending@.take(j as int),
                    states,
                    results,
                ),
                states[0] == state,
                states.last() == running,
                emitted@ == accepted(results),
                emitted@.len() <= j,
            decreases pending.len() - j,
        {
            let handled = self.process(running, &pending[j], &steps);
            proof {
                let more_states = states.push(handled.0);
                let more_results = results.push(handled.1);
                assert(more_results.drop_last() == results);
                assert forall|i: int| 0 <= i < j + 1 implies handles::<V, S, I, M, O, FO, FM, F>(
                    *self,
                    in_application_order(snapshot@),
                    more_states[i],
                    pending@.take(j as int + 1)[i],
                    more_states[i + 1],
                    #[trigger] more_results[i],
                ) by {
                    if i < j {
                        assert(results[i] == more_results[i]);
                        assert(pending@.take(j as int)[i] == pending@.take(j as int + 1)[i]);
                        assert(states[i] == more_states[i]);
                        assert(states[i + 1] == more_states[i + 1]);
                    }
                }
                states = more_states;
                results = more_results;
            }
            running = handled.0;
            match handled.1 {
                Some(output) => {
                    emitted.push(output);
                },
                None => {},
            }
            j += 1;
        }
        assert(pending@.take(j as int) == pending@);
        (running, emitted)
    }
}

} // verus!
