//! The spawn dispatchers.
//!
//! Once per tick a dispatcher is handed the sightings of the entities that
//! hold its data component. For each entity that has arrived it calls its
//! callback, once, in the order of the sightings.
//!
//! What a callback does to the world around it is modelled by a state that it
//! takes and hands back: the command buffer of the store, the context of a
//! spawner.

use vstd::prelude::*;
use bevy_ecs::entity::Entity;
use crate::config::{ConfigError, ConfigErrorView};
use crate::context::{params_of, system_params, Field, ParamView, SystemParam};
use crate::store::Sighting;

verus! {

/// Announces that an entity has arrived, with a copy of its data.
pub struct SpawnEvent<T> {
    pub entity: Entity,
    pub data: T,
}

/// The sightings of the entities that have arrived, in the order of the
/// sightings.
pub open spec fn arrivals<'a, T>(sightings: Seq<Sighting<'a, T>>) -> Seq<Sighting<'a, T>>
    decreases sightings.len(),
{
    if sightings.len() == 0 {
        Seq::empty()
    } else if sightings.last().is_arrival() {
        arrivals(sightings.drop_last()).push(sightings.last())
    } else {
        arrivals(sightings.drop_last())
    }
}

/// `trace` records the calls of `callback` for `arrived`, one call for each,
/// first to last: it starts with the state before the first call and holds
/// the state after each call.
pub open spec fn is_dispatch<'a, S, T, F: Fn(S, Entity, &T) -> S>(
    callback: F,
    arrived: Seq<Sighting<'a, T>>,
    trace: Seq<S>,
) -> bool {
    &&& trace.len() == arrived.len() + 1
    &&& forall|k: int|
        0 <= k < arrived.len() ==> call_ensures(
            callback,
            (#[trigger] trace[k], arrived[k].entity, arrived[k].data),
            trace[k + 1],
        )
}

/// Calling `callback` once for each of `arrived`, in their order, can lead
/// from `start` to `end`.
pub open spec fn dispatches_to<'a, S, T, F: Fn(S, Entity, &T) -> S>(
    callback: F,
    arrived: Seq<Sighting<'a, T>>,
    start: S,
    end: S,
) -> bool {
    exists|trace: Seq<S>| #[trigger]
        is_dispatch(callback, arrived, trace) && trace[0] == start && trace.last() == end
}

/// `events` announces each of `arrived` once, in their order, each with a
/// copy of its data.
pub open spec fn announces<'a, T: Clone>(
    arrived: Seq<Sighting<'a, T>>,
    events: Seq<SpawnEvent<T>>,
) -> bool {
    &&& events.len() == arrived.len()
    &&& forall|k: int|
        0 <= k < arrived.len() ==> (#[trigger] events[k]).entity == arrived[k].entity && cloned(
            *arrived[k].data,
            events[k].data,
        )
}

/// The callback may be called on every state, entity and data.
pub open spec fn callable<S, T, F: Fn(S, Entity, &T) -> S>(callback: F) -> bool {
    forall|state: S, entity: Entity, data: T| call_requires(callback, (state, entity, &data))
}

/// The handler that dispatches the arrival of one kind of data component.
pub struct SpawnDispatcher<F> {
    pub spawn: F,
}

impl<F> SpawnDispatcher<F> {
    /// Installs `spawn` as the callback of a dispatcher.
    pub fn register(spawn: F) -> (dispatcher: Self)
        ensures
            dispatcher.spawn == spawn,
    {
        SpawnDispatcher { spawn }
    }

    /// Runs the dispatcher for one tick: for each entity that has arrived, in
    /// the order of the sightings, the callback is called and the arrival is
    /// announced.
    pub fn tick<'a, S, T: Clone>(&self, commands: S, sightings: &Vec<Sighting<'a, T>>) -> (out: (
        S,
        Vec<SpawnEvent<T>>,
    )) where F: Fn(S, Entity, &T) -> S,

        requires
            callable::<S, T, F>(self.spawn),
        ensures
            dispatches_to(self.spawn, arrivals(sightings@), commands, out.0),
            announces(arrivals(sightings@), out.1@),
    {
        let ghost mut trace: Seq<S> = seq![commands];
        let mut running = commands;
        let mut events: Vec<SpawnEvent<T>> = Vec::new();
        let mut seen: usize = 0;
        while seen < sightings.len()
            invariant
                seen <= sightings.len(),
                callable::<S, T, F>(self.spawn),
                is_dispatch(self.spawn, arrivals(sightings@.take(seen as int)), trace),
                trace[0] == commands,
                trace.last() == running,
                announces(arrivals(sightings@.take(seen as int)), events@),
            decreases sightings.len() - seen,
        {
            let sighting = &sightings[seen];
            let ghost before = arrivals(sightings@.take(seen as int));
            proof {
                assert(sightings@.take(seen as int + 1).drop_last() =~= sightings@.take(
                    seen as int,
                ));
            }
            if sighting.arrived() {
                let next = (self.spawn)(running, sighting.entity, sighting.data);
                events.push(SpawnEvent { entity: sighting.entity, data: sighting.data.clone() });
                proof {
                    let after = arrivals(sightings@.take(seen as int + 1));
                    assert(after == before.push(*sighting));
                    let longer = trace.push(next);
                    assert forall|k: int| 0 <= k < after.len() implies call_ensures(
                        self.spawn,
                        (#[trigger] longer[k], after[k].entity, after[k].data),
                        longer[k + 1],
                    ) by {
                        if k < before.len() {
                            assert(longer[k] == trace[k]);
                            assert(longer[k + 1] == trace[k + 1]);
                        }
                    }
                    trace = longer;
                }
                running = next;
            }
            seen += 1;
        }
        assert(sightings@.take(seen as int) == sightings@);
        (running, events)
    }
}

/// The handler that dispatches the arrival of one kind of data component to
/// a spawner with a context.
pub struct SpawnContextDispatcher<A, F> {
    /// The resource handles that the context is built from, tick by tick.
    pub system_params: Vec<SystemParam<A>>,
    pub spawner: F,
}

impl<A, F> SpawnContextDispatcher<A, F> {
    /// Every resource handle of the context is a handle.
    pub open spec fn well_formed(self) -> bool {
        forall|k: int|
            0 <= k < self.system_params@.len() ==> (#[trigger] self.system_params@[k]).well_formed()
    }

    /// The resource handles of the context, as names and handles.
    pub open spec fn handles(self) -> Seq<ParamView<A>> {
        self.system_params@.map_values(|param: SystemParam<A>| param@)
    }

    /// Installs `spawner` as the callback of a dispatcher whose context is
    /// built from `context_resources`. The registration is refused where one
    /// of them has no name or is no resource handle of a known kind.
    pub fn register(spawner: F, context_resources: Vec<Field<A>>) -> (registered: Result<
        Self,
        ConfigError,
    >)
        ensures
            match registered {
                Ok(dispatcher) => {
                    &&& dispatcher.spawner == spawner
                    &&& dispatcher.well_formed()
                    &&& params_of(context_resources@) == Ok::<Seq<ParamView<A>>, ConfigErrorView>(
                        dispatcher.handles(),
                    )
                },
                Err(error) => params_of(context_resources@) == Err::<
                    Seq<ParamView<A>>,
                    ConfigErrorView,
                >(error@),
            },
    {
        match system_params(context_resources) {
            Ok(system_params) => Ok(SpawnContextDispatcher { system_params, spawner }),
            Err(error) => Err(error),
        }
    }

    /// Runs the dispatcher for one tick: for each entity that has arrived, in
    /// the order of the sightings, the spawner is called with the context as
    /// its predecessor left it.
    pub fn tick<'a, C, T>(&self, context: C, sightings: &Vec<Sighting<'a, T>>) -> (after: C) where
        F: Fn(C, Entity, &T) -> C,

        requires
            callable::<C, T, F>(self.spawner),
        ensures
            dispatches_to(self.spawner, arrivals(sightings@), context, after),
    {
        let ghost mut trace: Seq<C> = seq![context];
        let mut running = context;
        let mut seen: usize = 0;
        while seen < sightings.len()
            invariant
                seen <= sightings.len(),
                callable::<C, T, F>(self.spawner),
                is_dispatch(self.spawner, arrivals(sightings@.take(seen as int)), trace),
                trace[0] == context,
                trace.last() == running,
            decreases sightings.len() - seen,
        {
            let sighting = &sightings[seen];
            let ghost before = arrivals(sightings@.take(seen as int));
            proof {
                assert(sightings@.take(seen as int + 1).drop_last() =~= sightings@.take(
                    seen as int,
                ));
            }
            if sighting.arrived() {
                let next = (self.spawner)(running, sighting.entity, sighting.data);
                proof {
                    let after = arrivals(sightings@.take(seen as int + 1));
                    assert(after == before.push(*sighting));
                    let longer = trace.push(next);
                    assert forall|k: int| 0 <= k < after.len() implies call_ensures(
                        self.spawner,
                        (#[trigger] longer[k], after[k].entity, after[k].data),
                        longer[k + 1],
                    ) by {
                        if k < before.len() {
                            assert(longer[k] == trace[k]);
                            assert(longer[k + 1] == trace[k + 1]);
                        }
                    }
                    trace = longer;
                }
                running = next;
            }
            seen += 1;
        }
        assert(sightings@.take(seen as int) == sightings@);
        running
    }
}

/// No entity is sighted twice.
pub open spec fn distinct_entities<'a, T>(sightings: Seq<Sighting<'a, T>>) -> bool {
    forall|a: int, b: int|
        0 <= a < b < sightings.len() ==> (#[trigger] sightings[a]).entity != (
        #[trigger] sightings[b]).entity
}

/// Every dispatched sighting is one of the sightings, and an arrival.
proof fn lemma_arrivals_are_sighted<'a, T>(sightings: Seq<Sighting<'a, T>>)
    ensures
        forall|k: int|
            0 <= k < arrivals(sightings).len() ==> exists|i: int|
                0 <= i < sightings.len() && #[trigger] sightings[i] == (#[trigger] arrivals(
                    sightings,
                )[k]) && sightings[i].is_arrival(),
    decreases sightings.len(),
{
    if sightings.len() > 0 {
        let earlier = sightings.drop_last();
        lemma_arrivals_are_sighted(earlier);
        assert forall|k: int| 0 <= k < arrivals(sightings).len() implies exists|i: int|
            0 <= i < sightings.len() && #[trigger] sightings[i] == (#[trigger] arrivals(
                sightings,
            )[k]) && sightings[i].is_arrival() by {
            if k < arrivals(earlier).len() {
                let i = choose|i: int|
                    0 <= i < earlier.len() && #[trigger] earlier[i] == arrivals(earlier)[k]
                        && earlier[i].is_arrival();
                assert(sightings[i] == earlier[i]);
            } else {
                assert(sightings[sightings.len() - 1] == arrivals(sightings)[k]);
            }
        }
    }
}

/// An entity is dispatched exactly once in the tick in which it has arrived,
/// and not at all in a tick in which it has not: among the sightings of a
/// tick, which name no entity twice, the one at `place` stands once among the
/// dispatched if it is an arrival, and nothing that is dispatched names its
/// entity if it is none.
pub proof fn lemma_dispatched_exactly_once<'a, T>(sightings: Seq<Sighting<'a, T>>, place: int)
    requires
        distinct_entities(sightings),
        0 <= place < sightings.len(),
    ensures
        sightings[place].is_arrival() ==> exists|k: int|
            0 <= k < arrivals(sightings).len() && #[trigger] arrivals(sightings)[k]
                == sightings[place] && forall|m: int|
                0 <= m < arrivals(sightings).len() && m != k ==> (#[trigger] arrivals(
                    sightings,
                )[m]).entity != sightings[place].entity,
        !sightings[place].is_arrival() ==> forall|m: int|
            0 <= m < arrivals(sightings).len() ==> (#[trigger] arrivals(sightings)[m]).entity
                != sightings[place].entity,
    decreases sightings.len(),
{
    let last = sightings.len() - 1;
    let earlier = sightings.drop_last();
    let entity = sightings[place].entity;
    assert(distinct_entities(earlier)) by {
        assert forall|a: int, b: int| 0 <= a < b < earlier.len() implies (
        #[trigger] earlier[a]).entity != (#[trigger] earlier[b]).entity by {
            assert(sightings[a].entity != sightings[b].entity);
        }
    }
    if place < last {
        lemma_dispatched_exactly_once(earlier, place);
        assert(earlier[place] == sightings[place]);
        assert(sightings[place].entity != sightings[last].entity);
        if sightings[place].is_arrival() {
            let k = choose|k: int|
                0 <= k < arrivals(earlier).len() && #[trigger] arrivals(earlier)[k]
                    == earlier[place] && forall|m: int|
                    0 <= m < arrivals(earlier).len() && m != k ==> (#[trigger] arrivals(
                        earlier,
                    )[m]).entity != earlier[place].entity;
            assert(arrivals(sightings)[k] == sightings[place]);
            assert forall|m: int| 0 <= m < arrivals(sightings).len() && m != k implies (
            #[trigger] arrivals(sightings)[m]).entity != entity by {
                if m < arrivals(earlier).len() {
                    assert(arrivals(earlier)[m].entity != entity);
                }
            }
        } else {
            assert forall|m: int| 0 <= m < arrivals(sightings).len() implies (#[trigger] arrivals(
                sightings,
            )[m]).entity != entity by {
                if m < arrivals(earlier).len() {
                    assert(arrivals(earlier)[m].entity != entity);
                }
            }
        }
    } else {
        lemma_arrivals_are_sighted(earlier);
        assert forall|m: int| 0 <= m < arrivals(earlier).len() implies (#[trigger] arrivals(
            earlier,
        )[m]).entity != entity by {
            let i = choose|i: int|
                0 <= i < earlier.len() && #[trigger] earlier[i] == arrivals(earlier)[m]
                    && earlier[i].is_arrival();
            assert(sightings[i].entity != sightings[last].entity);
        }
        if sightings[place].is_arrival() {
            let k = arrivals(earlier).len() as int;
            assert(arrivals(sightings)[k] == sightings[place]);
            assert forall|m: int| 0 <= m < arrivals(sightings).len() && m != k implies (
            #[trigger] arrivals(sightings)[m]).entity != entity by {
                assert(arrivals(sightings)[m] == arrivals(earlier)[m]);
            }
        }
    }
}

} // verus!
