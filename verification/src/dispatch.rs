//! Turning applicable messages into what the game does about them.
//!
//! Nothing is applied here: a handler appends commands for the store's
//! single writer, and position updates go to a batch of their own.

use crate::actions::ActorActions;
use crate::entity::allocation;
use crate::entity::entity_index;
use crate::entity::resolution;
use crate::entity::Allocation;
use crate::entity::handle_index;
use crate::entity::EntityConverter;
use crate::message::Address;
use crate::message::Message;
use crate::message::Position;
use crate::message::Velocity;
use bevy::ecs::entity::Entities;
use vstd::prelude::*;

verus! {

/// A deferred mutation of the game state.
#[derive(Clone, Copy, PartialEq, Eq, Debug)]
pub enum Command {
    /// A new client asks to join from `address`.
    ClientJoin { address: Address },
    /// The actor `entity` takes over the given actions and heading.
    ActorActionsSet { entity: u64, actions: ActorActions, direction: u32 },
    /// The actor `entity` turns to `direction`.
    ActorDirectionSet { entity: u64, direction: u32 },
    /// The server accepted this client: the game starts.
    Start,
    /// `entity` becomes an actor of the given type at `position`.
    ActorSet { entity: u64, actor_type: u8, position: Position, is_ghost: bool },
    /// `entity` is the actor that this client controls.
    ActorPlayerSet { entity: u64 },
    /// A projectile appears.
    ProjectileSpawn {
        position: Position,
        velocity: Velocity,
        acceleration_factor: u32,
        shooter: Option<u64>,
    },
    /// `entity` disappears.
    EntityDelete { entity: u64 },
}

/// What a server does about one applicable message from the peer at
/// `address`, whose connection is attached to `entity`. Input from a peer
/// without an attached entity is ignored; of the action bits those that
/// stand for no action are left out.
pub open spec fn server_command(address: Address, message: Message, entity: Option<u64>) -> Option<
    Command,
> {
    match message {
        Message::Join { .. } => Some(Command::ClientJoin { address }),
        Message::ClientInput { actions, direction, .. } => match entity {
            Some(entity) => Some(
                Command::ActorActionsSet {
                    entity,
                    actions: ActorActions::truncated(actions),
                    direction,
                },
            ),
            None => None,
        },
        Message::ClientInputDirection { direction, .. } => match entity {
            Some(entity) => Some(Command::ActorDirectionSet { entity, direction }),
            None => None,
        },
        _ => None,
    }
}

/// The network entity id that a client has to translate for `message`.
pub open spec fn referenced_id(message: Message) -> Option<u32> {
    match message {
        Message::ActorSpawn { entity_id, .. } => Some(entity_id),
        Message::ActorGrant { entity_id, .. } => Some(entity_id),
        Message::PositionUpdate { entity_id, .. } => Some(entity_id),
        Message::ProjectileSpawn { shooter_id, .. } => shooter_id,
        Message::EntityDelete { entity_id, .. } => Some(entity_id),
        _ => None,
    }
}

/// What a client does about one applicable message, with network ids
/// translated by `handles`.
pub open spec fn client_command(message: Message, handles: Map<u32, u64>) -> Option<Command> {
    match message {
        Message::JoinAccept { .. } => Some(Command::Start),
        Message::ActorSpawn { entity_id, actor_type, position, .. } => Some(
            Command::ActorSet {
                entity: handles[entity_id],
                actor_type,
                position,
                is_ghost: false,
            },
        ),
        Message::ActorGrant { entity_id, .. } => Some(
            Command::ActorPlayerSet { entity: handles[entity_id] },
        ),
        Message::ProjectileSpawn { position, velocity, acceleration_factor, shooter_id, .. } => Some(
            Command::ProjectileSpawn {
                position,
                velocity,
                acceleration_factor,
                shooter: match shooter_id {
                    Some(id) => Some(handles[id]),
                    None => None,
                },
            },
        ),
        Message::EntityDelete { entity_id, .. } => Some(
            Command::EntityDelete { entity: handles[entity_id] },
        ),
        _ => None,
    }
}

/// The position update that a client queues for one applicable message: the
/// index of the local entity and its new position.
pub open spec fn client_position_update(message: Message, handles: Map<u32, u64>) -> Option<
    (u32, Position),
> {
    match message {
        Message::PositionUpdate { entity_id, position } => Some(
            (entity_index(handles[entity_id]), position),
        ),
        _ => None,
    }
}

/// `items` with `item` appended, if there is one.
pub open spec fn with_optional<T>(items: Seq<T>, item: Option<T>) -> Seq<T> {
    match item {
        Some(item) => items.push(item),
        None => items,
    }
}

/// Whether `handles` has a handle for the id that `message` refers to, if
/// it refers to one.
pub open spec fn translatable(message: Message, handles: Map<u32, u64>) -> bool {
    match referenced_id(message) {
        Some(id) => handles.contains_key(id),
        None => true,
    }
}

/// What a client's handling of messages reads and changes.
pub struct ClientView {
    /// The translation of network ids.
    pub handles: Map<u32, u64>,
    /// What the translation reads of the allocator.
    pub allocation: Allocation,
    /// The commands queued.
    pub commands: Seq<Command>,
    /// The position updates queued.
    pub position_updates: Seq<(u32, Position)>,
    /// The number of messages that were not applied.
    pub dropped: nat,
}

/// The client after one applicable message. The id that the message refers
/// to is resolved first. Where it has a handle afterwards, or the message
/// refers to none, the message is applied: its command or its position
/// update is queued. Otherwise the message is dropped and counted, and
/// nothing is queued.
pub open spec fn client_step(before: ClientView, message: Message) -> ClientView {
    match referenced_id(message) {
        None => ClientView {
            commands: with_optional(before.commands, client_command(message, before.handles)),
            ..before
        },
        Some(id) => {
            let resolved = resolution(before.handles, before.allocation, id);
            if resolved.handle is Some {
                ClientView {
                    handles: resolved.handles,
                    allocation: resolved.allocation,
                    commands: with_optional(
                        before.commands,
                        client_command(message, resolved.handles),
                    ),
                    position_updates: with_optional(
                        before.position_updates,
                        client_position_update(message, resolved.handles),
                    ),
                    dropped: before.dropped,
                }
            } else {
                ClientView {
                    handles: resolved.handles,
                    allocation: resolved.allocation,
                    dropped: before.dropped + 1,
                    ..before
                }
            }
        },
    }
}

/// One message never changes an earlier binding and never makes two ids
/// share a handle. A message that refers to no entity, or to one whose id is
/// bound, is applied without a word to the allocator. A message that refers
/// to an unknown id is applied exactly where the allocator has room and the
/// entity that it gives next is no other id's.
pub proof fn lemma_client_step(before: ClientView, message: Message)
    requires
        before.handles.is_injective(),
    ensures
        before.handles.submap_of(client_step(before, message).handles),
        client_step(before, message).handles.is_injective(),
        translatable(message, before.handles) ==> {
            &&& client_step(before, message).dropped == before.dropped
            &&& client_step(before, message).handles == before.handles
            &&& client_step(before, message).allocation == before.allocation
        },
        !translatable(message, before.handles) ==> (client_step(before, message).dropped
            == before.dropped <==> before.allocation.has_room() && !before.handles.contains_value(
            before.allocation.next(),
        )),
        client_step(before, message).dropped == before.dropped ==> translatable(
            message,
            client_step(before, message).handles,
        ),
        before.dropped <= client_step(before, message).dropped <= before.dropped + 1,
{
    match referenced_id(message) {
        Some(id) => {
            crate::entity::lemma_resolution(before.handles, before.allocation, id);
        },
        None => {},
    }
}

/// Commands for two distinct network ids name two distinct entities,
/// wherever no two ids share a handle.
pub proof fn lemma_distinct_ids_name_distinct_entities(
    handles: Map<u32, u64>,
    first: u32,
    second: u32,
)
    requires
        handles.is_injective(),
        handles.contains_key(first),
        handles.contains_key(second),
        first != second,
    ensures
        handles[first] != handles[second],
        client_command(Message::ActorGrant { id: None, entity_id: first }, handles)
            != client_command(Message::ActorGrant { id: None, entity_id: second }, handles),
        client_command(Message::EntityDelete { id: None, entity_id: first }, handles)
            != client_command(Message::EntityDelete { id: None, entity_id: second }, handles),
{
}

pub fn on_message_as_server(
    address: &Address,
    message: &Message,
    entity: Option<u64>,
    commands: &mut Vec<Command>,
)
    ensures
        final(commands)@ == with_optional(
            old(commands)@,
            server_command(*address, *message, entity),
        ),
{
    match *message {
        Message::Join { .. } => {
            commands.push(Command::ClientJoin { address: *address });
        },
        Message::ClientInput { actions, direction, .. } => {
            if let Some(entity) = entity {
                commands.push(
                    Command::ActorActionsSet {
                        entity,
                        actions: ActorActions::from_bits_truncate(actions),
                        direction,
                    },
                );
            }
        },
        Message::ClientInputDirection { direction, .. } => {
            if let Some(entity) = entity {
                commands.push(Command::ActorDirectionSet { entity, direction });
            }
        },
        _ => {},
    }
}

/// Applies one message as a client. Returns whether it was applied: a
/// message that refers to an entity is applied only where the entity's id
/// has, or can be given, a local handle.
pub fn on_message_as_client(
    message: &Message,
    entities: &mut Entities,
    converter: &mut EntityConverter,
    commands: &mut Vec<Command>,
    position_updates: &mut Vec<(u32, Position)>,
) -> (applied: bool)
    requires
        old(converter).wf(),
    ensures
        final(converter).wf(),
        (ClientView {
            handles: final(converter)@,
            allocation: allocation(*final(entities)),
            commands: final(commands)@,
            position_updates: final(position_updates)@,
            dropped: if applied {
                0
            } else {
                1
            },
        }) == client_step(
            ClientView {
                handles: old(converter)@,
                allocation: allocation(*old(entities)),
                commands: old(commands)@,
                position_updates: old(position_updates)@,
                dropped: 0,
            },
            *message,
        ),
{
    match *message {
        Message::JoinAccept { .. } => {
            commands.push(Command::Start);
            true
        },
        Message::ActorSpawn { entity_id, actor_type, position, .. } => {
            match converter.to_internal(entities, entity_id) {
                Some(entity) => {
                    commands.push(
                        Command::ActorSet { entity, actor_type, position, is_ghost: false },
                    );
                    true
                },
                None => false,
            }
        },
        Message::ActorGrant { entity_id, .. } => {
            match converter.to_internal(entities, entity_id) {
                Some(entity) => {
                    commands.push(Command::ActorPlayerSet { entity });
                    true
                },
                None => false,
            }
        },
        Message::PositionUpdate { entity_id, position } => {
            match converter.to_internal(entities, entity_id) {
                Some(entity) => {
                    position_updates.push((handle_index(entity), position));
                    true
                },
                None => false,
            }
        },
        Message::ProjectileSpawn { position, velocity, acceleration_factor, shooter_id, .. } => {
            let shooter = match shooter_id {
                Some(id) => match converter.to_internal(entities, id) {
                    Some(entity) => Some(entity),
                    None => {
                        return false;
                    },
                },
                None => None,
            };
            commands.push(
                Command::ProjectileSpawn { position, velocity, acceleration_factor, shooter },
            );
            true
        },
        Message::EntityDelete { entity_id, .. } => {
            match converter.to_internal(entities, entity_id) {
                Some(entity) => {
                    commands.push(Command::EntityDelete { entity });
                    true
                },
                None => false,
            }
        },
        _ => true,
    }
}

/// Hands one applicable message to the handler of this process's role.
/// Returns whether the message was applied; a server applies every message
/// and leaves the translation and the allocator alone.
pub fn on_message(
    address: &Address,
    message: &Message,
    entity: Option<u64>,
    entities: &mut Entities,
    converter: &mut EntityConverter,
    commands: &mut Vec<Command>,
    position_updates: &mut Vec<(u32, Position)>,
    is_server: bool,
) -> (applied: bool)
    requires
        old(converter).wf(),
    ensures
        final(converter).wf(),
        is_server ==> {
            &&& applied
            &&& final(converter)@ == old(converter)@
            &&& *final(entities) == *old(entities)
            &&& final(position_updates)@ == old(position_updates)@
            &&& final(commands)@ == with_optional(
                old(commands)@,
                server_command(*address, *message, entity),
            )
        },
        !is_server ==> (ClientView {
            handles: final(converter)@,
            allocation: allocation(*final(entities)),
            commands: final(commands)@,
            position_updates: final(position_updates)@,
            dropped: if applied {
                0
            } else {
                1
            },
        }) == client_step(
            ClientView {
                handles: old(converter)@,
                allocation: allocation(*old(entities)),
                commands: old(commands)@,
                position_updates: old(position_updates)@,
                dropped: 0,
            },
            *message,
        ),
{
    if is_server {
        on_message_as_server(address, message, entity, commands);
        true
    } else {
        on_message_as_client(message, entities, converter, commands, position_updates)
    }
}

} // verus!
