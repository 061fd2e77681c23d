//! The wire form of the message set.
//!
//! A datagram holds one message: a tag byte, then the fields of that
//! variant at fixed offsets, integers in little-endian order. An optional
//! field is a flag byte (0 or 1) followed by the value, which is zero when
//! the flag is 0. The tag fixes the length, so every message has exactly
//! one wire form and every byte string is the wire form of at most one
//! message.

use crate::message::Message;
use crate::message::Position;
use crate::message::Velocity;
use vstd::prelude::*;

verus! {

/// The length of the buffer that a datagram is received into. It is longer
/// than every wire form, so that a datagram cut off at the buffer's end
/// never has the length of a message.
pub const MESSAGE_SIZE_MAX: usize = 64;

/// Why a datagram is not a message.
#[derive(Clone, Copy, PartialEq, Eq, Debug)]
pub enum DecodeError {
    /// The datagram is empty.
    Empty,
    /// The first byte is not the tag of a variant.
    UnknownTag,
    /// The length is not the length of the variant that the tag names.
    Length,
    /// An optional field has a flag other than 0 or 1, or a value without
    /// its flag.
    Field,
}

pub open spec fn u32_bytes(x: u32) -> Seq<u8> {
    seq![
        (x % 256) as u8,
        (x / 256 % 256) as u8,
        (x / 65536 % 256) as u8,
        (x / 16777216) as u8,
    ]
}

pub open spec fn u32_at(bytes: Seq<u8>, at: int) -> u32 {
    (bytes[at] + 256 * bytes[at + 1] + 65536 * bytes[at + 2] + 16777216 * bytes[at + 3]) as u32
}

pub open spec fn optional_bytes(id: Option<u32>) -> Seq<u8> {
    match id {
        Some(id) => seq![1u8] + u32_bytes(id),
        None => seq![0u8, 0u8, 0u8, 0u8, 0u8],
    }
}

pub open spec fn position_bytes(position: Position) -> Seq<u8> {
    u32_bytes(position.x) + u32_bytes(position.y) + u32_bytes(position.direction)
}

pub open spec fn velocity_bytes(velocity: Velocity) -> Seq<u8> {
    u32_bytes(velocity.x) + u32_bytes(velocity.y)
}

/// The optional number in the five bytes from `at`; the outer `None` stands
/// for a field that is not well formed.
pub open spec fn optional_at(bytes: Seq<u8>, at: int) -> Option<Option<u32>> {
    if bytes[at] == 1 {
        Some(Some(u32_at(bytes, at + 1)))
    } else if bytes[at] == 0 && bytes[at + 1] == 0 && bytes[at + 2] == 0 && bytes[at + 3] == 0
        && bytes[at + 4] == 0 {
        Some(None)
    } else {
        None
    }
}

pub open spec fn position_at(bytes: Seq<u8>, at: int) -> Position {
    Position {
        x: u32_at(bytes, at),
        y: u32_at(bytes, at + 4),
        direction: u32_at(bytes, at + 8),
    }
}

pub open spec fn velocity_at(bytes: Seq<u8>, at: int) -> Velocity {
    Velocity { x: u32_at(bytes, at), y: u32_at(bytes, at + 4) }
}

/// The tag of each variant.
pub open spec fn tag(message: Message) -> u8 {
    match message {
        Message::Join { .. } => 0,
        Message::JoinAccept { .. } => 1,
        Message::ClientInput { .. } => 2,
        Message::ClientInputDirection { .. } => 3,
        Message::ActorSpawn { .. } => 4,
        Message::ActorGrant { .. } => 5,
        Message::PositionUpdate { .. } => 6,
        Message::ProjectileSpawn { .. } => 7,
        Message::EntityDelete { .. } => 8,
        Message::Response { .. } => 9,
    }
}

/// The length of the wire form that starts with `tag`.
pub open spec fn wire_length(tag: u8) -> int {
    if tag == 0 || tag == 1 {
        6
    } else if tag == 2 {
        11
    } else if tag == 3 || tag == 5 || tag == 8 {
        10
    } else if tag == 4 {
        23
    } else if tag == 6 {
        17
    } else if tag == 7 {
        35
    } else {
        5
    }
}

/// The wire form of a message.
pub open spec fn encoding(message: Message) -> Seq<u8> {
    match message {
        Message::Join { id } => seq![0u8]
            + optional_bytes(id),
        Message::JoinAccept { id } => seq![1u8]
            + optional_bytes(id),
        Message::ClientInput { id, actions, direction } => seq![2u8]
            + optional_bytes(id)
            + seq![actions]
            + u32_bytes(direction),
        Message::ClientInputDirection { id, direction } => seq![3u8]
            + optional_bytes(id)
            + u32_bytes(direction),
        Message::ActorSpawn { id, entity_id, actor_type, position } => seq![4u8]
            + optional_bytes(id)
            + u32_bytes(entity_id)
            + seq![actor_type]
            + position_bytes(position),
        Message::ActorGrant { id, entity_id } => seq![5u8]
            + optional_bytes(id)
            + u32_bytes(entity_id),
        Message::PositionUpdate { entity_id, position } => seq![6u8]
            + u32_bytes(entity_id)
            + position_bytes(position),
        Message::ProjectileSpawn { id, position, velocity, acceleration_factor, shooter_id } => seq![7u8]
            + optional_bytes(id)
            + position_bytes(position)
            + velocity_bytes(velocity)
            + u32_bytes(acceleration_factor)
            + optional_bytes(shooter_id),
        Message::EntityDelete { id, entity_id } => seq![8u8]
            + optional_bytes(id)
            + u32_bytes(entity_id),
        Message::Response { message_id } => seq![9u8]
            + u32_bytes(message_id),
    }
}

/// What a datagram of the right length for its tag holds.
pub open spec fn fields(bytes: Seq<u8>) -> Result<Message, DecodeError> {
    let kind = bytes[0];
    if kind == 0 {
        match optional_at(bytes, 1) {
            None => Err(DecodeError::Field),
            Some(id) => Ok(Message::Join { id }),
        }
    } else if kind == 1 {
        match optional_at(bytes, 1) {
            None => Err(DecodeError::Field),
            Some(id) => Ok(Message::JoinAccept { id }),
        }
    } else if kind == 2 {
        match optional_at(bytes, 1) {
            None => Err(DecodeError::Field),
            Some(id) => Ok(
                Message::ClientInput {
                    id,
                    actions: bytes[6],
                    direction: u32_at(bytes, 7),
                },
            ),
        }
    } else if kind == 3 {
        match optional_at(bytes, 1) {
            None => Err(DecodeError::Field),
            Some(id) => Ok(Message::ClientInputDirection { id, direction: u32_at(bytes, 6) }),
        }
    } else if kind == 4 {
        match optional_at(bytes, 1) {
            None => Err(DecodeError::Field),
            Some(id) => Ok(
                Message::ActorSpawn {
                    id,
                    entity_id: u32_at(bytes, 6),
                    actor_type: bytes[10],
                    position: position_at(bytes, 11),
                },
            ),
        }
    } else if kind == 5 {
        match optional_at(bytes, 1) {
            None => Err(DecodeError::Field),
            Some(id) => Ok(Message::ActorGrant { id, entity_id: u32_at(bytes, 6) }),
        }
    } else if kind == 6 {
        Ok(Message::PositionUpdate { entity_id: u32_at(bytes, 1), position: position_at(bytes, 5) })
    } else if kind == 7 {
        match optional_at(bytes, 1) {
            None => Err(DecodeError::Field),
            Some(id) => match optional_at(bytes, 30) {
                None => Err(DecodeError::Field),
                Some(shooter_id) => Ok(
                    Message::ProjectileSpawn {
                        id,
                        position: position_at(bytes, 6),
                        velocity: velocity_at(bytes, 18),
                        acceleration_factor: u32_at(bytes, 26),
                        shooter_id,
                    },
                ),
            },
        }
    } else if kind == 8 {
        match optional_at(bytes, 1) {
            None => Err(DecodeError::Field),
            Some(id) => Ok(Message::EntityDelete { id, entity_id: u32_at(bytes, 6) }),
        }
    } else {
        Ok(Message::Response { message_id: u32_at(bytes, 1) })
    }
}

/// The message that a datagram holds, or why it holds none.
pub open spec fn decoding(bytes: Seq<u8>) -> Result<Message, DecodeError> {
    if bytes.len() == 0 {
        Err(DecodeError::Empty)
    } else if bytes[0] > 9 {
        Err(DecodeError::UnknownTag)
    } else if bytes.len() != wire_length(bytes[0]) {
        Err(DecodeError::Length)
    } else {
        fields(bytes)
    }
}

proof fn lemma_u32_field(bytes: Seq<u8>, at: int, x: u32)
    requires
        0 <= at,
        at + 4 <= bytes.len(),
        bytes.subrange(at, at + 4) == u32_bytes(x),
    ensures
        u32_at(bytes, at) == x,
{
    let window = bytes.subrange(at, at + 4);
    assert(window[0] == bytes[at] && window[1] == bytes[at + 1] && window[2] == bytes[at + 2]
        && window[3] == bytes[at + 3]);
}

proof fn lemma_optional_field(bytes: Seq<u8>, at: int, id: Option<u32>)
    requires
        0 <= at,
        at + 5 <= bytes.len(),
        bytes.subrange(at, at + 5) == optional_bytes(id),
    ensures
        optional_at(bytes, at) == Some(id),
{
    let window = bytes.subrange(at, at + 5);
    assert(window[0] == bytes[at] && window[1] == bytes[at + 1] && window[2] == bytes[at + 2]
        && window[3] == bytes[at + 3] && window[4] == bytes[at + 4]);
    match id {
        Some(k) => {
            assert(bytes.subrange(at + 1, at + 5) =~= window.subrange(1, 5));
            assert(window.subrange(1, 5) =~= u32_bytes(k));
            lemma_u32_field(bytes, at + 1, k);
        },
        None => {},
    }
}

proof fn lemma_position_field(bytes: Seq<u8>, at: int, position: Position)
    requires
        0 <= at,
        at + 12 <= bytes.len(),
        bytes.subrange(at, at + 12) == position_bytes(position),
    ensures
        position_at(bytes, at) == position,
{
    let window = bytes.subrange(at, at + 12);
    assert(bytes.subrange(at, at + 4) =~= window.subrange(0, 4));
    assert(bytes.subrange(at + 4, at + 8) =~= window.subrange(4, 8));
    assert(bytes.subrange(at + 8, at + 12) =~= window.subrange(8, 12));
    assert(window.subrange(0, 4) =~= u32_bytes(position.x));
    assert(window.subrange(4, 8) =~= u32_bytes(position.y));
    assert(window.subrange(8, 12) =~= u32_bytes(position.direction));
    lemma_u32_field(bytes, at, position.x);
    lemma_u32_field(bytes, at + 4, position.y);
    lemma_u32_field(bytes, at + 8, position.direction);
}

proof fn lemma_velocity_field(bytes: Seq<u8>, at: int, velocity: Velocity)
    requires
        0 <= at,
        at + 8 <= bytes.len(),
        bytes.subrange(at, at + 8) == velocity_bytes(velocity),
    ensures
        velocity_at(bytes, at) == velocity,
{
    let window = bytes.subrange(at, at + 8);
    assert(bytes.subrange(at, at + 4) =~= window.subrange(0, 4));
    assert(bytes.subrange(at + 4, at + 8) =~= window.subrange(4, 8));
    assert(window.subrange(0, 4) =~= u32_bytes(velocity.x));
    assert(window.subrange(4, 8) =~= u32_bytes(velocity.y));
    lemma_u32_field(bytes, at, velocity.x);
    lemma_u32_field(bytes, at + 4, velocity.y);
}

proof fn lemma_u32_window(bytes: Seq<u8>, at: int)
    requires
        0 <= at,
        at + 4 <= bytes.len(),
    ensures
        u32_bytes(u32_at(bytes, at)) == bytes.subrange(at, at + 4),
{
    let b0 = bytes[at] as u32;
    let b1 = bytes[at + 1] as u32;
    let b2 = bytes[at + 2] as u32;
    let b3 = bytes[at + 3] as u32;
    let x = u32_at(bytes, at);
    assert(x == (b0 + 256 * b1 + 65536 * b2 + 16777216 * b3) as u32);
    assert({
        let x = (b0 + 256 * b1 + 65536 * b2 + 16777216 * b3) as u32;
        &&& x % 256 == b0
        &&& x / 256 % 256 == b1
        &&& x / 65536 % 256 == b2
        &&& x / 16777216 == b3
    }) by (bit_vector)
        requires
            b0 < 256,
            b1 < 256,
            b2 < 256,
            b3 < 256,
    ;
    assert(u32_bytes(x) =~= bytes.subrange(at, at + 4));
}

proof fn lemma_optional_window(bytes: Seq<u8>, at: int)
    requires
        0 <= at,
        at + 5 <= bytes.len(),
        optional_at(bytes, at) is Some,
    ensures
        optional_bytes(optional_at(bytes, at)->0) == bytes.subrange(at, at + 5),
{
    lemma_u32_window(bytes, at + 1);
    assert(optional_bytes(optional_at(bytes, at)->0) =~= bytes.subrange(at, at + 5));
}

proof fn lemma_position_window(bytes: Seq<u8>, at: int)
    requires
        0 <= at,
        at + 12 <= bytes.len(),
    ensures
        position_bytes(position_at(bytes, at)) == bytes.subrange(at, at + 12),
{
    lemma_u32_window(bytes, at);
    lemma_u32_window(bytes, at + 4);
    lemma_u32_window(bytes, at + 8);
    assert(position_bytes(position_at(bytes, at)) =~= bytes.subrange(at, at + 12));
}

proof fn lemma_velocity_window(bytes: Seq<u8>, at: int)
    requires
        0 <= at,
        at + 8 <= bytes.len(),
    ensures
        velocity_bytes(velocity_at(bytes, at)) == bytes.subrange(at, at + 8),
{
    lemma_u32_window(bytes, at);
    lemma_u32_window(bytes, at + 4);
    assert(velocity_bytes(velocity_at(bytes, at)) =~= bytes.subrange(at, at + 8));
}

/// Every wire form starts with the tag of its variant, has the length that
/// the tag fixes, and fits the receive buffer with room to spare.
pub proof fn lemma_encoding_shape(message: Message)
    ensures
        encoding(message).len() == wire_length(tag(message)),
        encoding(message).len() < MESSAGE_SIZE_MAX,
        encoding(message)[0] == tag(message),
        tag(message) <= 9,
{
}

proof fn lemma_round_trip_join(message: Message)
    requires
        tag(message) == 0,
    ensures
        decoding(encoding(message)) == Ok::<Message, DecodeError>(message),
{
    let bytes = encoding(message);
    lemma_encoding_shape(message);
    match message {
        Message::Join { id } => {
            let head = seq![0u8] + optional_bytes(id);
            assert(head.len() == 6);
            assert(bytes == head);
            assert(bytes.subrange(1, 6) =~= head.subrange(1, 6));
            assert(head.subrange(1, 6) =~= optional_bytes(id));
            lemma_optional_field(bytes, 1, id);
        },
        _ => {},
    }
}

proof fn lemma_round_trip_join_accept(message: Message)
    requires
        tag(message) == 1,
    ensures
        decoding(encoding(message)) == Ok::<Message, DecodeError>(message),
{
    let bytes = encoding(message);
    lemma_encoding_shape(message);
    match message {
        Message::JoinAccept { id } => {
            let head = seq![1u8] + optional_bytes(id);
            assert(head.len() == 6);
            assert(bytes == head);
            assert(bytes.subrange(1, 6) =~= head.subrange(1, 6));
            assert(head.subrange(1, 6) =~= optional_bytes(id));
            lemma_optional_field(bytes, 1, id);
        },
        _ => {},
    }
}

proof fn lemma_round_trip_client_input(message: Message)
    requires
        tag(message) == 2,
    ensures
        decoding(encoding(message)) == Ok::<Message, DecodeError>(message),
{
    let bytes = encoding(message);
    lemma_encoding_shape(message);
    match message {
        Message::ClientInput { id, actions, direction } => {
            let head = seq![2u8] + optional_bytes(id);
            let second = head + seq![actions];
            let third = second + u32_bytes(direction);
            assert(head.len() == 6);
            assert(second.len() == 7);
            assert(third.len() == 11);
            assert(bytes == third);
            assert(bytes.subrange(7, 11) =~= third.subrange(7, 11));
            assert(third.subrange(7, 11) =~= u32_bytes(direction));
            lemma_u32_field(bytes, 7, direction);
            assert(bytes[6] == second[6]);
            assert(second[6] == actions);
            assert(bytes.subrange(1, 6) =~= head.subrange(1, 6));
            assert(head.subrange(1, 6) =~= optional_bytes(id));
            lemma_optional_field(bytes, 1, id);
        },
        _ => {},
    }
}

proof fn lemma_round_trip_client_input_direction(message: Message)
    requires
        tag(message) == 3,
    ensures
        decoding(encoding(message)) == Ok::<Message, DecodeError>(message),
{
    let bytes = encoding(message);
    lemma_encoding_shape(message);
    match message {
        Message::ClientInputDirection { id, direction } => {
            let head = seq![3u8] + optional_bytes(id);
            let second = head + u32_bytes(direction);
            assert(head.len() == 6);
            assert(second.len() == 10);
            assert(bytes == second);
            assert(bytes.subrange(6, 10) =~= second.subrange(6, 10));
            assert(second.subrange(6, 10) =~= u32_bytes(direction));
            lemma_u32_field(bytes, 6, direction);
            assert(bytes.subrange(1, 6) =~= head.subrange(1, 6));
            assert(head.subrange(1, 6) =~= optional_bytes(id));
            lemma_optional_field(bytes, 1, id);
        },
        _ => {},
    }
}

proof fn lemma_round_trip_actor_spawn(message: Message)
    requires
        tag(message) == 4,
    ensures
        decoding(encoding(message)) == Ok::<Message, DecodeError>(message),
{
    let bytes = encoding(message);
    lemma_encoding_shape(message);
    match message {
        Message::ActorSpawn { id, entity_id, actor_type, position } => {
            let head = seq![4u8] + optional_bytes(id);
            let second = head + u32_bytes(entity_id);
            let third = second + seq![actor_type];
            let fourth = third + position_bytes(position);
            assert(head.len() == 6);
            assert(second.len() == 10);
            assert(third.len() == 11);
            assert(fourth.len() == 23);
            assert(bytes == fourth);
            assert(bytes.subrange(11, 23) =~= fourth.subrange(11, 23));
            assert(fourth.subrange(11, 23) =~= position_bytes(position));
            lemma_position_field(bytes, 11, position);
            assert(bytes[10] == third[10]);
            assert(third[10] == actor_type);
            assert(bytes.subrange(6, 10) =~= second.subrange(6, 10));
            assert(second.subrange(6, 10) =~= u32_bytes(entity_id));
            lemma_u32_field(bytes, 6, entity_id);
            assert(bytes.subrange(1, 6) =~= head.subrange(1, 6));
            assert(head.subrange(1, 6) =~= optional_bytes(id));
            lemma_optional_field(bytes, 1, id);
        },
        _ => {},
    }
}

proof fn lemma_round_trip_actor_grant(message: Message)
    requires
        tag(message) == 5,
    ensures
        decoding(encoding(message)) == Ok::<Message, DecodeError>(message),
{
    let bytes = encoding(message);
    lemma_encoding_shape(message);
    match message {
        Message::ActorGrant { id, entity_id } => {
            let head = seq![5u8] + optional_bytes(id);
            let second = head + u32_bytes(entity_id);
            assert(head.len() == 6);
            assert(second.len() == 10);
            assert(bytes == second);
            assert(bytes.subrange(6, 10) =~= second.subrange(6, 10));
            assert(second.subrange(6, 10) =~= u32_bytes(entity_id));
            lemma_u32_field(bytes, 6, entity_id);
            assert(bytes.subrange(1, 6) =~= head.subrange(1, 6));
            assert(head.subrange(1, 6) =~= optional_bytes(id));
            lemma_optional_field(bytes, 1, id);
        },
        _ => {},
    }
}

proof fn lemma_round_trip_position_update(message: Message)
    requires
        tag(message) == 6,
    ensures
        decoding(encoding(message)) == Ok::<Message, DecodeError>(message),
{
    let bytes = encoding(message);
    lemma_encoding_shape(message);
    match message {
        Message::PositionUpdate { entity_id, position } => {
            let head = seq![6u8] + u32_bytes(entity_id);
            let second = head + position_bytes(position);
            assert(head.len() == 5);
            assert(second.len() == 17);
            assert(bytes == second);
            assert(bytes.subrange(5, 17) =~= second.subrange(5, 17));
            assert(second.subrange(5, 17) =~= position_bytes(position));
            lemma_position_field(bytes, 5, position);
            assert(bytes.subrange(1, 5) =~= head.subrange(1, 5));
            assert(head.subrange(1, 5) =~= u32_bytes(entity_id));
            lemma_u32_field(bytes, 1, entity_id);
        },
        _ => {},
    }
}

proof fn lemma_round_trip_projectile_spawn(message: Message)
    requires
        tag(message) == 7,
    ensures
        decoding(encoding(message)) == Ok::<Message, DecodeError>(message),
{
    let bytes = encoding(message);
    lemma_encoding_shape(message);
    match message {
        Message::ProjectileSpawn { id, position, velocity, acceleration_factor, shooter_id } => {
            let head = seq![7u8] + optional_bytes(id);
            let second = head + position_bytes(position);
            let third = second + velocity_bytes(velocity);
            let fourth = third + u32_bytes(acceleration_factor);
            let fifth = fourth + optional_bytes(shooter_id);
            assert(head.len() == 6);
            assert(second.len() == 18);
            assert(third.len() == 26);
            assert(fourth.len() == 30);
            assert(fifth.len() == 35);
            assert(bytes == fifth);
            assert(bytes.subrange(30, 35) =~= fifth.subrange(30, 35));
            assert(fifth.subrange(30, 35) =~= optional_bytes(shooter_id));
            lemma_optional_field(bytes, 30, shooter_id);
            assert(bytes.subrange(26, 30) =~= fourth.subrange(26, 30));
            assert(fourth.subrange(26, 30) =~= u32_bytes(acceleration_factor));
            lemma_u32_field(bytes, 26, acceleration_factor);
            assert(bytes.subrange(18, 26) =~= third.subrange(18, 26));
            assert(third.subrange(18, 26) =~= velocity_bytes(velocity));
            lemma_velocity_field(bytes, 18, velocity);
            assert(bytes.subrange(6, 18) =~= second.subrange(6, 18));
            assert(second.subrange(6, 18) =~= position_bytes(position));
            lemma_position_field(bytes, 6, position);
            assert(bytes.subrange(1, 6) =~= head.subrange(1, 6));
            assert(head.subrange(1, 6) =~= optional_bytes(id));
            lemma_optional_field(bytes, 1, id);
        },
        _ => {},
    }
}

proof fn lemma_round_trip_entity_delete(message: Message)
    requires
        tag(message) == 8,
    ensures
        decoding(encoding(message)) == Ok::<Message, DecodeError>(message),
{
    let bytes = encoding(message);
    lemma_encoding_shape(message);
    match message {
        Message::EntityDelete { id, entity_id } => {
            let head = seq![8u8] + optional_bytes(id);
            let second = head + u32_bytes(entity_id);
            assert(head.len() == 6);
            assert(second.len() == 10);
            assert(bytes == second);
            assert(bytes.subrange(6, 10) =~= second.subrange(6, 10));
            assert(second.subrange(6, 10) =~= u32_bytes(entity_id));
            lemma_u32_field(bytes, 6, entity_id);
            assert(bytes.subrange(1, 6) =~= head.subrange(1, 6));
            assert(head.subrange(1, 6) =~= optional_bytes(id));
            lemma_optional_field(bytes, 1, id);
        },
        _ => {},
    }
}

proof fn lemma_round_trip_response(message: Message)
    requires
        tag(message) == 9,
    ensures
        decoding(encoding(message)) == Ok::<Message, DecodeError>(message),
{
    let bytes = encoding(message);
    lemma_encoding_shape(message);
    match message {
        Message::Response { message_id } => {
            let head = seq![9u8] + u32_bytes(message_id);
            assert(head.len() == 5);
            assert(bytes == head);
            assert(bytes.subrange(1, 5) =~= head.subrange(1, 5));
            assert(head.subrange(1, 5) =~= u32_bytes(message_id));
            lemma_u32_field(bytes, 1, message_id);
        },
        _ => {},
    }
}

/// Decoding the wire form of a message gives the message back.
pub proof fn lemma_decoding_inverts_encoding(message: Message)
    ensures
        decoding(encoding(message)) == Ok::<Message, DecodeError>(message),
{
    match message {
        Message::Join { .. } => lemma_round_trip_join(message),
        Message::JoinAccept { .. } => lemma_round_trip_join_accept(message),
        Message::ClientInput { .. } => lemma_round_trip_client_input(message),
        Message::ClientInputDirection { .. } => lemma_round_trip_client_input_direction(message),
        Message::ActorSpawn { .. } => lemma_round_trip_actor_spawn(message),
        Message::ActorGrant { .. } => lemma_round_trip_actor_grant(message),
        Message::PositionUpdate { .. } => lemma_round_trip_position_update(message),
        Message::ProjectileSpawn { .. } => lemma_round_trip_projectile_spawn(message),
        Message::EntityDelete { .. } => lemma_round_trip_entity_delete(message),
        Message::Response { .. } => lemma_round_trip_response(message),
    }
}

/// A datagram that decodes to a message is the wire form of that message:
/// no message has a second wire form.
pub proof fn lemma_encoding_inverts_decoding(bytes: Seq<u8>, message: Message)
    requires
        decoding(bytes) == Ok::<Message, DecodeError>(message),
    ensures
        encoding(message) == bytes,
{
    let kind = bytes[0];
    if kind == 0 {
        lemma_optional_window(bytes, 1);
        assert(bytes =~= seq![0u8]
            + bytes.subrange(1, 6));
    } else if kind == 1 {
        lemma_optional_window(bytes, 1);
        assert(bytes =~= seq![1u8]
            + bytes.subrange(1, 6));
    } else if kind == 2 {
        lemma_optional_window(bytes, 1);
        lemma_u32_window(bytes, 7);
        assert(bytes =~= seq![2u8]
            + bytes.subrange(1, 6)
            + seq![bytes[6]]
            + bytes.subrange(7, 11));
    } else if kind == 3 {
        lemma_optional_window(bytes, 1);
        lemma_u32_window(bytes, 6);
        assert(bytes =~= seq![3u8]
            + bytes.subrange(1, 6)
            + bytes.subrange(6, 10));
    } else if kind == 4 {
        lemma_optional_window(bytes, 1);
        lemma_u32_window(bytes, 6);
        lemma_position_window(bytes, 11);
        assert(bytes =~= seq![4u8]
            + bytes.subrange(1, 6)
            + bytes.subrange(6, 10)
            + seq![bytes[10]]
            + bytes.subrange(11, 23));
    } else if kind == 5 {
        lemma_optional_window(bytes, 1);
        lemma_u32_window(bytes, 6);
        assert(bytes =~= seq![5u8]
            + bytes.subrange(1, 6)
            + bytes.subrange(6, 10));
    } else if kind == 6 {
        lemma_u32_window(bytes, 1);
        lemma_position_window(bytes, 5);
        assert(bytes =~= seq![6u8]
            + bytes.subrange(1, 5)
            + bytes.subrange(5, 17));
    } else if kind == 7 {
        lemma_optional_window(bytes, 1);
        lemma_position_window(bytes, 6);
        lemma_velocity_window(bytes, 18);
        lemma_u32_window(bytes, 26);
        lemma_optional_window(bytes, 30);
        assert(bytes =~= seq![7u8]
            + bytes.subrange(1, 6)
            + bytes.subrange(6, 18)
            + bytes.subrange(18, 26)
            + bytes.subrange(26, 30)
            + bytes.subrange(30, 35));
    } else if kind == 8 {
        lemma_optional_window(bytes, 1);
        lemma_u32_window(bytes, 6);
        assert(bytes =~= seq![8u8]
            + bytes.subrange(1, 6)
            + bytes.subrange(6, 10));
    } else {
        lemma_u32_window(bytes, 1);
        assert(bytes =~= seq![9u8]
            + bytes.subrange(1, 5));
    }
}

/// Two messages with the same wire form are the same message.
pub proof fn lemma_encoding_is_injective(a: Message, b: Message)
    requires
        encoding(a) == encoding(b),
    ensures
        a == b,
{
    lemma_decoding_inverts_encoding(a);
    lemma_decoding_inverts_encoding(b);
}

fn put_u32(out: &mut Vec<u8>, x: u32)
    ensures
        final(out)@ == old(out)@ + u32_bytes(x),
{
    out.push((x % 256) as u8);
    out.push((x / 256 % 256) as u8);
    out.push((x / 65536 % 256) as u8);
    out.push((x / 16777216) as u8);
    assert(out@ =~= old(out)@ + u32_bytes(x));
}

fn put_optional(out: &mut Vec<u8>, id: Option<u32>)
    ensures
        final(out)@ == old(out)@ + optional_bytes(id),
{
    match id {
        Some(id) => {
            out.push(1);
            put_u32(out, id);
        },
        None => {
            out.push(0);
            out.push(0);
            out.push(0);
            out.push(0);
            out.push(0);
        },
    }
    assert(out@ =~= old(out)@ + optional_bytes(id));
}

fn put_position(out: &mut Vec<u8>, position: Position)
    ensures
        final(out)@ == old(out)@ + position_bytes(position),
{
    put_u32(out, position.x);
    put_u32(out, position.y);
    put_u32(out, position.direction);
    assert(out@ =~= old(out)@ + position_bytes(position));
}

fn put_velocity(out: &mut Vec<u8>, velocity: Velocity)
    ensures
        final(out)@ == old(out)@ + velocity_bytes(velocity),
{
    put_u32(out, velocity.x);
    put_u32(out, velocity.y);
    assert(out@ =~= old(out)@ + velocity_bytes(velocity));
}

fn get_u32(bytes: &[u8], at: usize) -> (x: u32)
    requires
        at + 4 <= bytes.len(),
    ensures
        x == u32_at(bytes@, at as int),
{
    bytes[at] as u32 + 256 * (bytes[at + 1] as u32) + 65536 * (bytes[at + 2] as u32) + 16777216
        * (bytes[at + 3] as u32)
}

fn get_optional(bytes: &[u8], at: usize) -> (id: Option<Option<u32>>)
    requires
        at + 5 <= bytes.len(),
    ensures
        id == optional_at(bytes@, at as int),
{
    if bytes[at] == 1 {
        Some(Some(get_u32(bytes, at + 1)))
    } else if bytes[at] == 0 && bytes[at + 1] == 0 && bytes[at + 2] == 0 && bytes[at + 3] == 0
        && bytes[at + 4] == 0 {
        Some(None)
    } else {
        None
    }
}

fn get_position(bytes: &[u8], at: usize) -> (position: Position)
    requires
        at + 12 <= bytes.len(),
    ensures
        position == position_at(bytes@, at as int),
{
    Position {
        x: get_u32(bytes, at),
        y: get_u32(bytes, at + 4),
        direction: get_u32(bytes, at + 8),
    }
}

fn get_velocity(bytes: &[u8], at: usize) -> (velocity: Velocity)
    requires
        at + 8 <= bytes.len(),
    ensures
        velocity == velocity_at(bytes@, at as int),
{
    Velocity { x: get_u32(bytes, at), y: get_u32(bytes, at + 4) }
}

fn length_of(kind: u8) -> (length: usize)
    ensures
        length == wire_length(kind),
{
    if kind == 0 || kind == 1 {
        6
    } else if kind == 2 {
        11
    } else if kind == 3 || kind == 5 || kind == 8 {
        10
    } else if kind == 4 {
        23
    } else if kind == 6 {
        17
    } else if kind == 7 {
        35
    } else {
        5
    }
}

impl Message {
    /// Writes the wire form of the message.
    pub fn encode(&self) -> (bytes: Vec<u8>)
        ensures
            bytes@ == encoding(*self),
    {
        let mut out: Vec<u8> = Vec::new();
        match *self {
            Message::Join { id } => {
                out.push(0);
                put_optional(&mut out, id);
            },
            Message::JoinAccept { id } => {
                out.push(1);
                put_optional(&mut out, id);
            },
            Message::ClientInput { id, actions, direction } => {
                out.push(2);
                put_optional(&mut out, id);
                out.push(actions);
                put_u32(&mut out, direction);
            },
            Message::ClientInputDirection { id, direction } => {
                out.push(3);
                put_optional(&mut out, id);
                put_u32(&mut out, direction);
            },
            Message::ActorSpawn { id, entity_id, actor_type, position } => {
                out.push(4);
                put_optional(&mut out, id);
                put_u32(&mut out, entity_id);
                out.push(actor_type);
                put_position(&mut out, position);
            },
            Message::ActorGrant { id, entity_id } => {
                out.push(5);
                put_optional(&mut out, id);
                put_u32(&mut out, entity_id);
            },
            Message::PositionUpdate { entity_id, position } => {
                out.push(6);
                put_u32(&mut out, entity_id);
                put_position(&mut out, position);
            },
            Message::ProjectileSpawn { id, position, velocity, acceleration_factor, shooter_id } => {
                out.push(7);
                put_optional(&mut out, id);
                put_position(&mut out, position);
                put_velocity(&mut out, velocity);
                put_u32(&mut out, acceleration_factor);
                put_optional(&mut out, shooter_id);
            },
            Message::EntityDelete { id, entity_id } => {
                out.push(8);
                put_optional(&mut out, id);
                put_u32(&mut out, entity_id);
            },
            Message::Response { message_id } => {
                out.push(9);
                put_u32(&mut out, message_id);
            },
        }
        assert(out@ =~= encoding(*self));
        out
    }

    /// Reads the message that `bytes` is the wire form of.
    pub fn decode(bytes: &[u8]) -> (result: Result<Message, DecodeError>)
        ensures
            result == decoding(bytes@),
    {
        if bytes.len() == 0 {
            return Err(DecodeError::Empty);
        }
        let kind: u8 = bytes[0];
        if kind > 9 {
            return Err(DecodeError::UnknownTag);
        }
        if bytes.len() != length_of(kind) {
            return Err(DecodeError::Length);
        }
        if kind == 0 {
            match get_optional(bytes, 1) {
                None => Err(DecodeError::Field),
                Some(id) => Ok(Message::Join { id }),
            }
        } else if kind == 1 {
            match get_optional(bytes, 1) {
                None => Err(DecodeError::Field),
                Some(id) => Ok(Message::JoinAccept { id }),
            }
        } else if kind == 2 {
            match get_optional(bytes, 1) {
                None => Err(DecodeError::Field),
                Some(id) => Ok(
                    Message::ClientInput {
                        id,
                        actions: bytes[6],
                        direction: get_u32(bytes, 7),
                    },
                ),
            }
        } else if kind == 3 {
            match get_optional(bytes, 1) {
                None => Err(DecodeError::Field),
                Some(id) => Ok(Message::ClientInputDirection { id, direction: get_u32(bytes, 6) }),
            }
        } else if kind == 4 {
            match get_optional(bytes, 1) {
                None => Err(DecodeError::Field),
                Some(id) => Ok(
                    Message::ActorSpawn {
                        id,
                        entity_id: get_u32(bytes, 6),
                        actor_type: bytes[10],
                        position: get_position(bytes, 11),
                    },
                ),
            }
        } else if kind == 5 {
            match get_optional(bytes, 1) {
                None => Err(DecodeError::Field),
                Some(id) => Ok(Message::ActorGrant { id, entity_id: get_u32(bytes, 6) }),
            }
        } else if kind == 6 {
            Ok(
                Message::PositionUpdate {
                    entity_id: get_u32(bytes, 1),
                    position: get_position(bytes, 5),
                },
            )
        } else if kind == 7 {
            match get_optional(bytes, 1) {
                None => Err(DecodeError::Field),
                Some(id) => match get_optional(bytes, 30) {
                    None => Err(DecodeError::Field),
                    Some(shooter_id) => Ok(
                        Message::ProjectileSpawn {
                            id,
                            position: get_position(bytes, 6),
                            velocity: get_velocity(bytes, 18),
                            acceleration_factor: get_u32(bytes, 26),
                            shooter_id,
                        },
                    ),
                },
            }
        } else if kind == 8 {
            match get_optional(bytes, 1) {
                None => Err(DecodeError::Field),
                Some(id) => Ok(Message::EntityDelete { id, entity_id: get_u32(bytes, 6) }),
            }
        } else {
            Ok(Message::Response { message_id: get_u32(bytes, 1) })
        }
    }
}

} // verus!
