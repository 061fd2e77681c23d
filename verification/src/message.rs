//! The protocol's message set and the plain values that messages carry.
//!
//! Real-valued fields (coordinates, headings, velocities) travel as the bit
//! patterns of IEEE 754 single-precision numbers. This layer never computes
//! with them: it only moves them between the wire and the consumer.

use vstd::prelude::*;

verus! {

/// Where a peer's datagrams come from: an IP address (an IPv4 address in its
/// IPv6-mapped form) and a port.
#[derive(Clone, Copy, PartialEq, Eq, Structural, Debug)]
pub struct Address {
    pub ip: u128,
    pub port: u16,
}

/// A planar position and heading, each as single-precision bits.
#[derive(Clone, Copy, PartialEq, Eq, Structural, Debug)]
pub struct Position {
    pub x: u32,
    pub y: u32,
    pub direction: u32,
}

impl Position {
    pub fn new(x: u32, y: u32, direction: u32) -> (position: Position)
        ensures
            position == (Position { x, y, direction }),
    {
        Position { x, y, direction }
    }
}

/// A planar velocity, each component as single-precision bits.
#[derive(Clone, Copy, PartialEq, Eq, Structural, Debug)]
pub struct Velocity {
    pub x: u32,
    pub y: u32,
}

/// One protocol message. Every variant with an `id` field can be sent
/// reliably: `Some(k)` makes it the `k`-th ordered message of its connection,
/// `None` sends it without ordering or acknowledgment.
#[derive(Clone, Copy, PartialEq, Eq, Debug)]
pub enum Message {
    Join { id: Option<u32> },
    JoinAccept { id: Option<u32> },
    ClientInput { id: Option<u32>, actions: u8, direction: u32 },
    ClientInputDirection { id: Option<u32>, direction: u32 },
    ActorSpawn { id: Option<u32>, entity_id: u32, actor_type: u8, position: Position },
    ActorGrant { id: Option<u32>, entity_id: u32 },
    PositionUpdate { entity_id: u32, position: Position },
    ProjectileSpawn {
        id: Option<u32>,
        position: Position,
        velocity: Velocity,
        acceleration_factor: u32,
        shooter_id: Option<u32>,
    },
    EntityDelete { id: Option<u32>, entity_id: u32 },
    Response { message_id: u32 },
}

impl Message {
    /// The reliability id that the message carries, if any.
    pub open spec fn id(self) -> Option<u32> {
        match self {
            Message::Join { id } => id,
            Message::JoinAccept { id } => id,
            Message::ClientInput { id, .. } => id,
            Message::ClientInputDirection { id, .. } => id,
            Message::ActorSpawn { id, .. } => id,
            Message::ActorGrant { id, .. } => id,
            Message::PositionUpdate { .. } => None,
            Message::ProjectileSpawn { id, .. } => id,
            Message::EntityDelete { id, .. } => id,
            Message::Response { .. } => None,
        }
    }

    /// Whether the variant has a place for a reliability id.
    pub open spec fn has_id_field(self) -> bool {
        !(self is PositionUpdate) && !(self is Response)
    }

    /// The same message with its reliability id set to `id`; a variant
    /// without an id field is left as it is.
    pub open spec fn stamped(self, id: u32) -> Message {
        match self {
            Message::Join { .. } => Message::Join { id: Some(id) },
            Message::JoinAccept { .. } => Message::JoinAccept { id: Some(id) },
            Message::ClientInput { actions, direction, .. } => Message::ClientInput {
                id: Some(id),
                actions,
                direction,
            },
            Message::ClientInputDirection { direction, .. } => Message::ClientInputDirection {
                id: Some(id),
                direction,
            },
            Message::ActorSpawn { entity_id, actor_type, position, .. } => Message::ActorSpawn {
                id: Some(id),
                entity_id,
                actor_type,
                position,
            },
            Message::ActorGrant { entity_id, .. } => Message::ActorGrant {
                id: Some(id),
                entity_id,
            },
            Message::PositionUpdate { .. } => self,
            Message::ProjectileSpawn {
                position,
                velocity,
                acceleration_factor,
                shooter_id,
                ..
            } => Message::ProjectileSpawn {
                id: Some(id),
                position,
                velocity,
                acceleration_factor,
                shooter_id,
            },
            Message::EntityDelete { entity_id, .. } => Message::EntityDelete {
                id: Some(id),
                entity_id,
            },
            Message::Response { .. } => self,
        }
    }

    pub fn get_id(&self) -> (id: Option<u32>)
        ensures
            id == self.id(),
    {
        match *self {
            Message::Join { id } => id,
            Message::JoinAccept { id } => id,
            Message::ClientInput { id, .. } => id,
            Message::ClientInputDirection { id, .. } => id,
            Message::ActorSpawn { id, .. } => id,
            Message::ActorGrant { id, .. } => id,
            Message::PositionUpdate { .. } => None,
            Message::ProjectileSpawn { id, .. } => id,
            Message::EntityDelete { id, .. } => id,
            Message::Response { .. } => None,
        }
    }

    pub fn can_carry_id(&self) -> (yes: bool)
        ensures
            yes == self.has_id_field(),
    {
        match *self {
            Message::PositionUpdate { .. } => false,
            Message::Response { .. } => false,
            _ => true,
        }
    }

    pub fn with_id(self, id: u32) -> (message: Message)
        ensures
            message == self.stamped(id),
    {
        match self {
            Message::Join { .. } => Message::Join { id: Some(id) },
            Message::JoinAccept { .. } => Message::JoinAccept { id: Some(id) },
            Message::ClientInput { actions, direction, .. } => Message::ClientInput {
                id: Some(id),
                actions,
                direction,
            },
            Message::ClientInputDirection { direction, .. } => Message::ClientInputDirection {
                id: Some(id),
                direction,
            },
            Message::ActorSpawn { entity_id, actor_type, position, .. } => Message::ActorSpawn {
                id: Some(id),
                entity_id,
                actor_type,
                position,
            },
            Message::ActorGrant { entity_id, .. } => Message::ActorGrant {
                id: Some(id),
                entity_id,
            },
            Message::PositionUpdate { .. } => self,
            Message::ProjectileSpawn {
                position,
                velocity,
                acceleration_factor,
                shooter_id,
                ..
            } => Message::ProjectileSpawn {
                id: Some(id),
                position,
                velocity,
                acceleration_factor,
                shooter_id,
            },
            Message::EntityDelete { entity_id, .. } => Message::EntityDelete {
                id: Some(id),
                entity_id,
            },
            Message::Response { .. } => self,
        }
    }
}

/// Stamping a message that has an id field gives it exactly that id, and
/// leaves a message without one unchanged.
pub proof fn lemma_stamped_id(message: Message, id: u32)
    ensures
        message.has_id_field() ==> message.stamped(id).id() == Some(id),
        !message.has_id_field() ==> message.stamped(id) == message,
        message.stamped(id).has_id_field() == message.has_id_field(),
{
}

} // verus!
