//! What the dispatchers take from the entity store.
//!
//! The store itself is not part of this library. Once per tick it is asked
//! which entities hold a data component, and for each of them whether the
//! component and the replication marker are newly added: attached in the very
//! tick in which the question is asked. A sighting holds the answer for one
//! entity.

use vstd::prelude::*;
use bevy_ecs::entity::Entity;

verus! {

/// `bevy_ecs::entity::Entity`, the identifier of an entity of the store.
/// Nothing is claimed of what is inside one: the library hands entities on
/// as it got them.
#[verifier::external_type_specification]
#[verifier::external_body]
pub struct ExEntity(bevy_ecs::entity::Entity);

/// Something that was attached in tick `attached_at`, if it is attached at
/// all, is newly added in that tick and in no other.
pub open spec fn newly_added(attached_at: Option<u64>, now: u64) -> bool {
    attached_at == Some(now)
}

/// Whether something that was attached in tick `attached_at` is newly added
/// in tick `now`.
pub fn is_newly_added(attached_at: Option<u64>, now: u64) -> (added: bool)
    ensures
        added == newly_added(attached_at, now),
{
    match attached_at {
        Some(tick) => tick == now,
        None => false,
    }
}

/// What one tick shows of one entity that holds the data component. The
/// component stays with the store: a sighting borrows it for the tick.
pub struct Sighting<'a, T> {
    /// The entity.
    pub entity: Entity,
    /// The data component that it holds.
    pub data: &'a T,
    /// The data component is newly added.
    pub data_added: bool,
    /// The replication marker is attached and newly added.
    pub marker_added: bool,
}

impl<'a, T> Sighting<'a, T> {
    /// The entity has arrived: its data component and its replication marker
    /// are both newly added.
    pub open spec fn is_arrival(self) -> bool {
        self.data_added && self.marker_added
    }

    /// Whether the entity has arrived.
    pub fn arrived(&self) -> (arrival: bool)
        ensures
            arrival == self.is_arrival(),
    {
        self.data_added && self.marker_added
    }

    /// The sighting, in tick `now`, of an entity whose data component was
    /// attached in tick `data_attached_at` and whose replication marker was
    /// attached in tick `marker_attached_at`, if it has one.
    pub fn observe(
        entity: Entity,
        data: &'a T,
        data_attached_at: u64,
        marker_attached_at: Option<u64>,
        now: u64,
    ) -> (sighting: Sighting<'a, T>)
        ensures
            sighting.entity == entity,
            sighting.data == data,
            sighting.data_added == newly_added(Some(data_attached_at), now),
            sighting.marker_added == newly_added(marker_attached_at, now),
    {
        Sighting {
            entity,
            data,
            data_added: is_newly_added(Some(data_attached_at), now),
            marker_added: is_newly_added(marker_attached_at, now),
        }
    }
}

/// An entity arrives in the tick in which both its data component and its
/// replication marker were attached, and in no other tick. Where the two were
/// attached in different ticks, or there is no marker, it never arrives.
pub proof fn lemma_arrival_needs_coincidence(
    data_attached_at: u64,
    marker_attached_at: Option<u64>,
    now: u64,
)
    ensures
        (newly_added(Some(data_attached_at), now) && newly_added(marker_attached_at, now)) <==> (
        marker_attached_at == Some(data_attached_at) && now == data_attached_at),
{
}

} // verus!
