//! Local entity handles, the allocator they come from, and the translation
//! of the identifiers that a peer uses on the wire into local handles.
//!
//! A local handle is the 64-bit form of an entity of the component store.

use bevy::ecs::entity::Entities;
use bevy::ecs::entity::Entity;
use std::collections::HashMap;
use vstd::prelude::*;

verus! {

/// The entity allocator of the component store.
#[verifier::external_type_specification]
#[verifier::external_body]
pub struct ExEntities(Entities);

/// The indices that the allocator has in use: those for which
/// `Entities::resolve_from_id` finds an entity. They are the indices below
/// the number of entities that were ever flushed or are reserved.
pub uninterp spec fn indices_in_use(entities: Entities) -> Set<u32>;

/// The entities that the allocator gives next, in the order in which it
/// gives them, each in its 64-bit form: what successive calls of
/// `Entities::reserve_entity` return while nothing else is done to the
/// allocator. It gives the indices that were freed, last freed first, and
/// then the indices that follow those in use.
pub uninterp spec fn upcoming_handles(entities: Entities) -> Seq<u64>;

/// The index part of the entity whose 64-bit form is `handle`: what
/// `Entity::id` returns for `Entity::from_bits(handle)`.
pub uninterp spec fn entity_index(handle: u64) -> u32;

/// Calls `Entities::resolve_from_id` and returns the 64-bit form
/// (`Entity::to_bits`) of what it finds. It finds an entity exactly for the
/// indices in use.
#[verifier::external_body]
pub(crate) fn entity_at_index(entities: &Entities, index: u32) -> (handle: Option<u64>)
    ensures
        handle is Some <==> indices_in_use(*entities).contains(index),
{
    match entities.resolve_from_id(index) {
        Some(entity) => Some(entity.to_bits()),
        None => None,
    }
}

/// Reserves one entity with `Entities::reserve_entity` and returns its
/// 64-bit form (`Entity::to_bits`).
///
/// The allocator takes a freed index where it has one, and otherwise the
/// least index that is not in use; it gives up, without returning, only
/// where that index does not fit 32 bits. The indices in use are a range
/// from zero, so while the largest index is not in use the call returns.
/// The allocator is taken exclusively, so that no reservation can come
/// between the test and the call.
///
/// What comes back is the first of the upcoming entities, and the rest of
/// them are those that come next. A freed index was in use already and a new
/// one is in use from now on, so the indices in use are those of before and
/// the index of the entity that came back.
#[verifier::external_body]
pub(crate) fn reserve_handle(entities: &mut Entities) -> (handle: u64)
    requires
        !indices_in_use(*old(entities)).contains(u32::MAX),
    ensures
        upcoming_handles(*old(entities)).len() > 0,
        handle == upcoming_handles(*old(entities))[0],
        upcoming_handles(*final(entities)) == upcoming_handles(*old(entities)).drop_first(),
        indices_in_use(*final(entities)) == indices_in_use(*old(entities)).insert(
            entity_index(handle),
        ),
{
    entities.reserve_entity().to_bits()
}

/// Calls `Entity::id` on the entity rebuilt from `handle` by
/// `Entity::from_bits`, and names the result.
#[verifier::external_body]
pub(crate) fn handle_index(handle: u64) -> (index: u32)
    ensures
        index == entity_index(handle),
{
    Entity::from_bits(handle).id()
}

/// What the translation reads of the allocator.
pub struct Allocation {
    /// The indices in use.
    pub in_use: Set<u32>,
    /// The entities that it gives next.
    pub upcoming: Seq<u64>,
}

/// What the translation reads of `entities`.
pub open spec fn allocation(entities: Entities) -> Allocation {
    Allocation { in_use: indices_in_use(entities), upcoming: upcoming_handles(entities) }
}

impl Allocation {
    /// Whether an entity can be reserved: the largest index is not in use.
    pub open spec fn has_room(self) -> bool {
        !self.in_use.contains(u32::MAX)
    }

    /// The entity that a reservation gives.
    pub open spec fn next(self) -> u64 {
        self.upcoming[0]
    }

    /// The allocator after a reservation.
    pub open spec fn reserved(self) -> Allocation {
        Allocation {
            in_use: self.in_use.insert(entity_index(self.next())),
            upcoming: self.upcoming.drop_first(),
        }
    }
}

/// Whether `back` maps every handle of `forth` to its network id, and holds
/// nothing else.
pub open spec fn inverse(forth: Map<u32, u64>, back: Map<u64, u32>) -> bool {
    &&& forall|id: u32| #[trigger]
        forth.contains_key(id) ==> back.contains_key(forth[id]) && back[forth[id]] == id
    &&& forall|handle: u64| #[trigger]
        back.contains_key(handle) ==> forth.contains_key(back[handle]) && forth[back[handle]]
            == handle
}

/// The translation after network id `network_id` was resolved, where
/// `reserved` is the handle that the allocator gave for it: a known id
/// changes nothing, an unknown one is bound to `reserved`, unless another id
/// has that handle already.
pub open spec fn resolved(map: Map<u32, u64>, network_id: u32, reserved: u64) -> Map<u32, u64> {
    if map.contains_key(network_id) || map.contains_value(reserved) {
        map
    } else {
        map.insert(network_id, reserved)
    }
}

/// What resolving a network id comes to.
pub struct Resolution {
    /// The translation afterwards.
    pub handles: Map<u32, u64>,
    /// The allocator afterwards.
    pub allocation: Allocation,
    /// The handle of the id, if it has one afterwards.
    pub handle: Option<u64>,
}

/// Resolves `network_id`. A known id has its handle and nothing changes. An
/// unknown id has none where the allocator has no room. Otherwise an entity
/// is reserved, and the id is bound to it and has it as its handle, unless
/// another id has that entity already.
pub open spec fn resolution(handles: Map<u32, u64>, allocation: Allocation, network_id: u32)
    -> Resolution {
    if handles.contains_key(network_id) {
        Resolution { handles, allocation, handle: Some(handles[network_id]) }
    } else if !allocation.has_room() {
        Resolution { handles, allocation, handle: None }
    } else {
        Resolution {
            handles: resolved(handles, network_id, allocation.next()),
            allocation: allocation.reserved(),
            handle: if handles.contains_value(allocation.next()) {
                None
            } else {
                Some(allocation.next())
            },
        }
    }
}

/// An unknown id gets a placeholder exactly where the allocator has room
/// and the entity that it gives next is no other id's; the placeholder is
/// that entity, and the id is bound to it. A known id always has its handle.
/// No earlier binding changes, and no two ids come to share a handle.
pub proof fn lemma_resolution(handles: Map<u32, u64>, allocation: Allocation, network_id: u32)
    requires
        handles.is_injective(),
    ensures
        handles.submap_of(resolution(handles, allocation, network_id).handles),
        resolution(handles, allocation, network_id).handles.is_injective(),
        handles.contains_key(network_id) ==> resolution(handles, allocation, network_id)
            == (Resolution { handles, allocation, handle: Some(handles[network_id]) }),
        !handles.contains_key(network_id) ==> (resolution(
            handles,
            allocation,
            network_id,
        ).handle is Some <==> allocation.has_room() && !handles.contains_value(allocation.next())),
        match resolution(handles, allocation, network_id).handle {
            Some(handle) => resolution(handles, allocation, network_id).handles.contains_key(
                network_id,
            ) && resolution(handles, allocation, network_id).handles[network_id] == handle
                && (!handles.contains_key(network_id) ==> handle == allocation.next()),
            None => resolution(handles, allocation, network_id).handles == handles,
        },
{
    if !handles.contains_key(network_id) && allocation.has_room() {
        lemma_resolution_is_injective(handles, network_id, allocation.next());
    }
}

/// Resolving an id never changes what any id was bound to before, and
/// resolving the same id again changes nothing, whatever the allocator gives
/// the second time.
pub proof fn lemma_resolution_is_stable(
    map: Map<u32, u64>,
    network_id: u32,
    reserved: u64,
    later: u64,
)
    ensures
        map.submap_of(resolved(map, network_id, reserved)),
        resolved(map, network_id, reserved).contains_key(network_id) ==> resolved(
            resolved(map, network_id, reserved),
            network_id,
            later,
        ) == resolved(map, network_id, reserved),
{
}

/// Two distinct network ids never share a handle, whatever the allocator
/// gives.
pub proof fn lemma_resolution_is_injective(map: Map<u32, u64>, network_id: u32, reserved: u64)
    requires
        map.is_injective(),
    ensures
        resolved(map, network_id, reserved).is_injective(),
{
    let after = resolved(map, network_id, reserved);
    assert forall|a: u32, b: u32|
        a != b && after.contains_key(a) && after.contains_key(b) implies #[trigger] after[a]
        != #[trigger] after[b] by {
        if a != network_id && b != network_id {
            assert(map.contains_key(a) && map.contains_key(b));
        } else if a == network_id {
            assert(map.contains_key(b));
        } else {
            assert(map.contains_key(a));
        }
    }
}

/// A translation that has its inverse is injective.
pub proof fn lemma_inverse_is_injective(forth: Map<u32, u64>, back: Map<u64, u32>)
    requires
        inverse(forth, back),
    ensures
        forth.is_injective(),
        forall|handle: u64| forth.contains_value(handle) <==> back.contains_key(handle),
{
    assert forall|a: u32, b: u32|
        a != b && forth.contains_key(a) && forth.contains_key(b) implies #[trigger] forth[a]
        != #[trigger] forth[b] by {
        assert(back[forth[a]] == a);
        assert(back[forth[b]] == b);
    }
    assert forall|handle: u64| forth.contains_value(handle) <==> back.contains_key(
        handle,
    ) by {
        if forth.contains_value(handle) {
            let id = choose|id: u32| forth.contains_key(id) && #[trigger] forth[id] == handle;
            assert(back.contains_key(forth[id]));
        }
        if back.contains_key(handle) {
            assert(forth.contains_key(back[handle]) && forth[back[handle]] == handle);
        }
    }
}

/// The translation between network entity ids and local handles. An id is
/// bound the first time it is seen and keeps its handle from then on; no two
/// ids have one handle.
pub struct EntityConverter {
    to_internal: HashMap<u32, u64>,
    to_external: HashMap<u64, u32>,
}

impl View for EntityConverter {
    type V = Map<u32, u64>;

    closed spec fn view(&self) -> Map<u32, u64> {
        self.to_internal@
    }
}

impl EntityConverter {
    /// The network id of each local handle that an id is bound to.
    pub closed spec fn reverse(&self) -> Map<u64, u32> {
        self.to_external@
    }

    /// The invariant that every operation keeps: the two directions are
    /// inverse to each other.
    pub open spec fn wf(&self) -> bool {
        inverse(self@, self.reverse())
    }

    pub fn new() -> (converter: EntityConverter)
        ensures
            converter.wf(),
            converter@ == Map::<u32, u64>::empty(),
    {
        EntityConverter { to_internal: HashMap::new(), to_external: HashMap::new() }
    }

    /// The handle that `network_id` is bound to, if it was seen before.
    pub fn get(&self, network_id: u32) -> (handle: Option<u64>)
        ensures
            handle == (if self@.contains_key(network_id) {
                Some(self@[network_id])
            } else {
                None
            }),
    {
        broadcast use vstd::std_specs::hash::group_hash_axioms;

        match self.to_internal.get(&network_id) {
            Some(handle) => Some(*handle),
            None => None,
        }
    }

    /// The network id that is bound to `handle`, if there is one.
    pub fn to_external(&self, handle: u64) -> (network_id: Option<u32>)
        requires
            self.wf(),
        ensures
            match network_id {
                Some(id) => self@.contains_key(id) && self@[id] == handle,
                None => !self@.contains_value(handle),
            },
    {
        broadcast use vstd::std_specs::hash::group_hash_axioms;

        proof {
            lemma_inverse_is_injective(self@, self.reverse());
        }
        match self.to_external.get(&handle) {
            Some(id) => Some(*id),
            None => None,
        }
    }

    /// Binds the unknown id `network_id` to `handle`, which the caller
    /// reserved for it. Nothing is bound, and `false` is returned, where the
    /// id is known already or the handle belongs to another id.
    pub fn adopt(&mut self, network_id: u32, handle: u64) -> (bound: bool)
        requires
            old(self).wf(),
        ensures
            final(self).wf(),
            bound == (!old(self)@.contains_key(network_id) && !old(self)@.contains_value(handle)),
            final(self)@ == resolved(old(self)@, network_id, handle),
    {
        broadcast use vstd::std_specs::hash::group_hash_axioms;

        proof {
            lemma_inverse_is_injective(self@, self.reverse());
        }
        if self.to_internal.contains_key(&network_id) || self.to_external.contains_key(&handle) {
            return false;
        }
        self.to_internal.insert(network_id, handle);
        self.to_external.insert(handle, network_id);
        proof {
            let forth = self@;
            let back = self.reverse();
            assert forall|id: u32| #[trigger] forth.contains_key(id) implies back.contains_key(
                forth[id],
            ) && back[forth[id]] == id by {
                if id != network_id {
                    assert(old(self)@.contains_key(id));
                    assert(old(self)@.contains_value(old(self)@[id]));
                }
            }
            assert forall|other: u64| #[trigger] back.contains_key(other) implies forth.contains_key(
                back[other],
            ) && forth[back[other]] == other by {
                if other != handle {
                    assert(old(self).reverse().contains_key(other));
                }
            }
        }
        true
    }

    /// The local handle of `network_id`. An id that is not known yet gets a
    /// placeholder entity, reserved from `entities` at once, and is bound to
    /// it before the call returns.
    ///
    /// There is no handle for an unknown id where the allocator has no index
    /// left, or where it gives an entity that another id is bound to; the
    /// translation is then left as it was.
    pub fn to_internal(&mut self, entities: &mut Entities, network_id: u32) -> (handle: Option<u64>)
        requires
            old(self).wf(),
        ensures
            final(self).wf(),
            (Resolution {
                handles: final(self)@,
                allocation: allocation(*final(entities)),
                handle,
            }) == resolution(old(self)@, allocation(*old(entities)), network_id),
    {
        match self.get(network_id) {
            Some(handle) => Some(handle),
            None => {
                if entity_at_index(entities, u32::MAX).is_some() {
                    return None;
                }
                let handle = reserve_handle(entities);
                if self.adopt(network_id, handle) {
                    Some(handle)
                } else {
                    None
                }
            },
        }
    }
}

/// Two distinct network ids never have one handle in a translation that
/// meets its invariant.
pub proof fn lemma_translation_is_injective(converter: EntityConverter)
    requires
        converter.wf(),
    ensures
        converter@.is_injective(),
{
    lemma_inverse_is_injective(converter@, converter.reverse());
}

} // verus!
