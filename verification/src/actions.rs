//! What an actor can be told to do, one bit per action.

use vstd::prelude::*;

verus! {

/// The actor moves forward.
pub const MOVEMENT_FORWARD: u8 = 0x01;

/// The actor moves backward.
pub const MOVEMENT_BACKWARD: u8 = 0x02;

/// The actor moves to its left.
pub const MOVEMENT_LEFTWARD: u8 = 0x04;

/// The actor moves to its right.
pub const MOVEMENT_RIGHTWARD: u8 = 0x08;

/// The actor runs.
pub const SPRINT: u8 = 0x10;

/// The actor attacks.
pub const ATTACK: u8 = 0x20;

/// The bits that stand for an action.
pub const ALL: u8 = 0x3f;

/// A set of actions.
#[derive(Clone, Copy, PartialEq, Eq, Structural, Debug)]
pub struct ActorActions {
    pub bits: u8,
}

impl ActorActions {
    /// The actions among `bits`: bits that stand for no action are left
    /// out.
    pub open spec fn truncated(bits: u8) -> ActorActions {
        ActorActions { bits: bits & ALL }
    }

    /// Whether every action of `other` is among these.
    pub open spec fn has(self, other: ActorActions) -> bool {
        self.bits & other.bits == other.bits
    }

    pub fn from_bits_truncate(bits: u8) -> (actions: ActorActions)
        ensures
            actions == ActorActions::truncated(bits),
    {
        ActorActions { bits: bits & ALL }
    }

    pub fn bits(&self) -> (bits: u8)
        ensures
            bits == self.bits,
    {
        self.bits
    }

    pub fn contains(&self, other: ActorActions) -> (contained: bool)
        ensures
            contained == self.has(other),
    {
        self.bits & other.bits == other.bits
    }
}

/// Truncating keeps every bit that stands for an action and no other, and
/// changes nothing when done again.
pub proof fn lemma_truncated(bits: u8)
    ensures
        ActorActions::truncated(bits).bits <= ALL,
        ActorActions::truncated(bits).bits & ALL == ActorActions::truncated(bits).bits,
        ActorActions::truncated(ActorActions::truncated(bits).bits) == ActorActions::truncated(
            bits,
        ),
        bits <= ALL ==> ActorActions::truncated(bits).bits == bits,
        ActorActions::truncated(bits).bits == bits % 64,
{
    assert((bits & 0x3f) <= 0x3f && (bits & 0x3f) & 0x3f == bits & 0x3f && (bits & 0x3f) == bits
        % 64 && (bits <= 0x3f ==> bits & 0x3f == bits)) by (bit_vector);
}

} // verus!
