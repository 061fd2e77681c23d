//! Per-peer bookkeeping: which incoming reliable messages have been applied,
//! which wait for a predecessor, and which outgoing ones are still
//! unacknowledged.
//!
//! Reliability ids start at 1 and grow by one per reliable message of a
//! connection. The largest id is never assigned, so `id + 1` always exists
//! for an id in use.

use crate::message::Address;
use crate::message::Message;
use std::collections::HashMap;
use vstd::prelude::*;

verus! {

/// An outgoing reliable message that no `Response` has confirmed yet.
#[derive(Clone, Copy, PartialEq, Eq, Debug)]
pub struct Pending {
    /// The message as it went on the wire, id included.
    pub message: Message,
    /// When it was last sent, in nanoseconds of the caller's clock.
    pub send_time: u128,
    /// How many times it has been sent.
    pub attempts: u32,
}

/// The mathematical content of a [`Connection`].
pub struct ConnectionView {
    pub address: Address,
    pub attached_entity: Option<u64>,
    pub next_outgoing_id: u32,
    pub highest_acknowledged_id: u32,
    pub unacknowledged: Map<u32, Pending>,
    pub last_processed_incoming_id: u32,
    pub held: Map<u32, Message>,
}

/// The messages held under the ids that follow `last` without a gap, in id
/// order.
pub open spec fn held_run(held: Map<u32, Message>, last: u32) -> Seq<Message>
    decreases u32::MAX - last,
{
    if last < u32::MAX && held.contains_key((last + 1) as u32) {
        seq![held[(last + 1) as u32]] + held_run(held, (last + 1) as u32)
    } else {
        Seq::empty()
    }
}

/// The acknowledgment watermark reached from `from`: it moves up while the
/// id above it has been assigned and is no longer unacknowledged.
pub open spec fn watermark(unacknowledged: Map<u32, Pending>, from: u32, next: u32) -> u32
    decreases next - from,
{
    if from + 1 < next && !unacknowledged.contains_key((from + 1) as u32) {
        watermark(unacknowledged, (from + 1) as u32, next)
    } else {
        from
    }
}

impl ConnectionView {
    /// A connection on which nothing was sent or received.
    pub open spec fn fresh(address: Address) -> ConnectionView {
        ConnectionView {
            address,
            attached_entity: None,
            next_outgoing_id: 1,
            highest_acknowledged_id: 0,
            unacknowledged: Map::empty(),
            last_processed_incoming_id: 0,
            held: Map::empty(),
        }
    }

    /// The invariant of a connection.
    ///
    /// - Every unacknowledged id lies above the watermark and below the next
    ///   id to assign, and is the id of the message stored under it.
    /// - The watermark is as high as it can be: the id above it is either
    ///   unassigned or unacknowledged.
    /// - Every held id lies above the last processed one, and is the id of
    ///   the message stored under it.
    pub open spec fn wf(self) -> bool {
        &&& self.highest_acknowledged_id < self.next_outgoing_id
        &&& forall|k: u32| #[trigger]
            self.unacknowledged.contains_key(k) ==> self.highest_acknowledged_id < k
                < self.next_outgoing_id && self.unacknowledged[k].message.id() == Some(k)
        &&& self.highest_acknowledged_id + 1 < self.next_outgoing_id
            ==> self.unacknowledged.contains_key((self.highest_acknowledged_id + 1) as u32)
        &&& forall|k: u32| #[trigger]
            self.held.contains_key(k) ==> self.last_processed_incoming_id < k && self.held[k].id()
                == Some(k)
    }

    /// Whether nothing waits that could be applied: the id after the last
    /// processed one is not held.
    pub open spec fn is_released(self) -> bool {
        !(self.last_processed_incoming_id < u32::MAX && self.held.contains_key(
            (self.last_processed_incoming_id + 1) as u32,
        ))
    }

    /// How an incoming message with reliability id `id` stands to what has
    /// been processed: it is the next one in order.
    pub open spec fn is_next(self, id: u32) -> bool {
        id == self.last_processed_incoming_id + 1
    }

    /// What the filter hands on for immediate application: a message
    /// without an id, or the one whose id follows the last processed id.
    pub open spec fn delivered(self, message: Message) -> Option<Message> {
        match message.id() {
            None => Some(message),
            Some(id) => if self.is_next(id) {
                Some(message)
            } else {
                None
            },
        }
    }

    /// The connection after `message` went through the filter: the next id
    /// in order advances the counter (and a copy held under that id is
    /// dropped), an id further ahead is held, anything else changes nothing.
    pub open spec fn filtered(self, message: Message) -> ConnectionView {
        match message.id() {
            None => self,
            Some(id) => if self.is_next(id) {
                ConnectionView {
                    last_processed_incoming_id: id,
                    held: self.held.remove(id),
                    ..self
                }
            } else if id <= self.last_processed_incoming_id {
                self
            } else {
                ConnectionView { held: self.held.insert(id, message), ..self }
            },
        }
    }

    /// The held messages that can be applied now.
    pub open spec fn releasable(self) -> Seq<Message> {
        held_run(self.held, self.last_processed_incoming_id)
    }

    /// The connection after the releasable messages were taken out.
    pub open spec fn released(self) -> ConnectionView {
        let last = self.last_processed_incoming_id;
        let count = self.releasable().len();
        ConnectionView {
            last_processed_incoming_id: (last + count) as u32,
            held: self.held.remove_keys(Set::new(|k: u32| last < k <= last + count)),
            ..self
        }
    }

    /// Whether `message` can be sent reliably: it has an id field and an id
    /// is left to assign.
    pub open spec fn can_send(self, message: Message) -> bool {
        message.has_id_field() && self.next_outgoing_id < u32::MAX
    }

    /// The connection after `message` was stamped with the next id and
    /// recorded as sent at `now`.
    pub open spec fn sent(self, message: Message, now: u128) -> ConnectionView {
        let id = self.next_outgoing_id;
        ConnectionView {
            next_outgoing_id: (id + 1) as u32,
            unacknowledged: self.unacknowledged.insert(
                id,
                Pending { message: message.stamped(id), send_time: now, attempts: 1 },
            ),
            ..self
        }
    }

    /// The connection after a `Response` for `id` arrived.
    pub open spec fn acknowledged(self, id: u32) -> ConnectionView {
        let rest = self.unacknowledged.remove(id);
        ConnectionView {
            unacknowledged: rest,
            highest_acknowledged_id: watermark(
                rest,
                self.highest_acknowledged_id,
                self.next_outgoing_id,
            ),
            ..self
        }
    }

    /// The connection after the unacknowledged message `id` was sent once
    /// more at `now`; nothing changes if `id` is not unacknowledged.
    pub open spec fn resent(self, id: u32, now: u128) -> ConnectionView {
        if self.unacknowledged.contains_key(id) {
            let before = self.unacknowledged[id];
            let attempts = if before.attempts < u32::MAX {
                (before.attempts + 1) as u32
            } else {
                u32::MAX
            };
            ConnectionView {
                unacknowledged: self.unacknowledged.insert(
                    id,
                    Pending { message: before.message, send_time: now, attempts },
                ),
                ..self
            }
        } else {
            self
        }
    }
}

/// A run of held messages depends only on what is held above its start.
pub proof fn lemma_held_run_above(a: Map<u32, Message>, b: Map<u32, Message>, last: u32)
    requires
        forall|k: u32| last < k ==> (a.contains_key(k) <==> b.contains_key(k)),
        forall|k: u32| last < k && a.contains_key(k) ==> a[k] == b[k],
    ensures
        held_run(a, last) == held_run(b, last),
    decreases u32::MAX - last,
{
    if last < u32::MAX && a.contains_key((last + 1) as u32) {
        lemma_held_run_above(a, b, (last + 1) as u32);
    }
}

/// A run is made of the messages held under consecutive ids, it ends where
/// the next id is not held, and it never runs past the largest id.
pub proof fn lemma_held_run_contiguous(held: Map<u32, Message>, last: u32)
    ensures
        last + held_run(held, last).len() <= u32::MAX,
        forall|k: u32|
            last < k <= last + held_run(held, last).len() ==> #[trigger] held.contains_key(k)
                && held_run(held, last)[k - last - 1] == held[k],
        last + held_run(held, last).len() < u32::MAX ==> !held.contains_key(
            (last + held_run(held, last).len() + 1) as u32,
        ),
    decreases u32::MAX - last,
{
    if last < u32::MAX && held.contains_key((last + 1) as u32) {
        let next = (last + 1) as u32;
        lemma_held_run_contiguous(held, next);
        let tail = held_run(held, next);
        let run = held_run(held, last);
        assert(run == seq![held[next]] + tail);
        assert forall|k: u32| last < k <= last + run.len() implies #[trigger] held.contains_key(
            k,
        ) && run[k - last - 1] == held[k] by {
            if k > next {
                assert(held.contains_key(k));
                assert(tail[k - next - 1] == held[k]);
                assert(run[k - last - 1] == tail[k - next - 1]);
            } else {
                assert(run[0] == held[next]);
            }
        }
    } else {
        assert(held_run(held, last).len() == 0);
    }
}

/// The watermark never moves down, stays below the next id to assign, passes
/// only ids that are no longer unacknowledged, and stops below an id that is
/// unassigned or still unacknowledged.
pub proof fn lemma_watermark(unacknowledged: Map<u32, Pending>, from: u32, next: u32)
    requires
        from < next,
    ensures
        from <= watermark(unacknowledged, from, next) < next,
        forall|k: u32|
            from < k <= watermark(unacknowledged, from, next)
                ==> !#[trigger] unacknowledged.contains_key(k),
        watermark(unacknowledged, from, next) + 1 < next ==> unacknowledged.contains_key(
            (watermark(unacknowledged, from, next) + 1) as u32,
        ),
    decreases next - from,
{
    if from + 1 < next && !unacknowledged.contains_key((from + 1) as u32) {
        lemma_watermark(unacknowledged, (from + 1) as u32, next);
    }
}

/// A fresh connection meets the invariant.
pub proof fn lemma_fresh_wf(address: Address)
    ensures
        ConnectionView::fresh(address).wf(),
{
}

/// Filtering keeps the invariant.
pub proof fn lemma_filtered_wf(c: ConnectionView, message: Message)
    requires
        c.wf(),
    ensures
        c.filtered(message).wf(),
{
}

/// Releasing keeps the invariant, hands out the messages with the ids that
/// follow the last processed one, in order, and leaves no message behind
/// that could be applied next.
pub proof fn lemma_released(c: ConnectionView)
    requires
        c.wf(),
    ensures
        c.released().wf(),
        c.released().last_processed_incoming_id == c.last_processed_incoming_id
            + c.releasable().len(),
        forall|i: int|
            0 <= i < c.releasable().len() ==> (#[trigger] c.releasable()[i]).id() == Some(
                (c.last_processed_incoming_id + 1 + i) as u32,
            ),
        c.released().releasable().len() == 0,
        c.released().is_released(),
{
    lemma_held_run_contiguous(c.held, c.last_processed_incoming_id);
    let last = c.last_processed_incoming_id;
    let count = c.releasable().len();
    assert forall|i: int| 0 <= i < count implies (#[trigger] c.releasable()[i]).id() == Some(
        (last + 1 + i) as u32,
    ) by {
        let k = (last + 1 + i) as u32;
        assert(c.held.contains_key(k));
        assert(c.releasable()[k - last - 1] == c.held[k]);
    }
}

/// Sending keeps the invariant and leaves the new id unacknowledged.
pub proof fn lemma_sent_wf(c: ConnectionView, message: Message, now: u128)
    requires
        c.wf(),
        c.can_send(message),
    ensures
        c.sent(message, now).wf(),
        c.sent(message, now).unacknowledged.contains_key(c.next_outgoing_id),
{
    crate::message::lemma_stamped_id(message, c.next_outgoing_id);
}

/// Acknowledging keeps the invariant.
pub proof fn lemma_acknowledged_wf(c: ConnectionView, id: u32)
    requires
        c.wf(),
    ensures
        c.acknowledged(id).wf(),
{
    lemma_watermark(c.unacknowledged.remove(id), c.highest_acknowledged_id, c.next_outgoing_id);
}

/// Recording another attempt keeps the invariant.
pub proof fn lemma_resent_wf(c: ConnectionView, id: u32, now: u128)
    requires
        c.wf(),
    ensures
        c.resent(id, now).wf(),
{
}

/// A message whose id was already processed is discarded: nothing is
/// handed on and the connection, its counter included, stays as it was.
pub proof fn lemma_duplicate_is_discarded(c: ConnectionView, message: Message, id: u32)
    requires
        message.id() == Some(id),
        id <= c.last_processed_incoming_id,
    ensures
        c.delivered(message) is None,
        c.filtered(message) == c,
{
}

/// A message that arrives ahead of its turn is handed on by a later release
/// once the gap before it has closed: if `message` with id `last + 2` is
/// filtered first and the message with id `last + 1` second, the second is
/// delivered and the release that follows starts with `message`.
pub proof fn lemma_gap_filled(c: ConnectionView, early: Message, late: Message)
    requires
        c.wf(),
        c.last_processed_incoming_id + 2 <= u32::MAX,
        early.id() == Some((c.last_processed_incoming_id + 2) as u32),
        late.id() == Some((c.last_processed_incoming_id + 1) as u32),
    ensures
        c.delivered(early) is None,
        c.filtered(early).delivered(late) == Some(late),
        c.filtered(early).filtered(late).releasable().len() >= 1,
        c.filtered(early).filtered(late).releasable()[0] == early,
{
    let after = c.filtered(early).filtered(late);
    assert(after.held.contains_key((c.last_processed_incoming_id + 2) as u32));
}

/// Acknowledgment round trip: once a message was sent reliably, a
/// `Response` with its id takes it out of the unacknowledged set.
pub proof fn lemma_acknowledgment_round_trip(c: ConnectionView, message: Message, now: u128)
    requires
        c.wf(),
        c.can_send(message),
    ensures
        c.sent(message, now).unacknowledged.contains_key(c.next_outgoing_id),
        !c.sent(message, now).acknowledged(c.next_outgoing_id).unacknowledged.contains_key(
            c.next_outgoing_id,
        ),
        c.sent(message, now).acknowledged(c.next_outgoing_id).unacknowledged
            == c.unacknowledged,
{
    let back = c.sent(message, now).acknowledged(c.next_outgoing_id).unacknowledged;
    assert(back =~= c.unacknowledged);
}

/// A `Response` for an id that is not unacknowledged (never sent, or
/// acknowledged before) changes nothing.
pub proof fn lemma_unknown_acknowledgment_is_noop(c: ConnectionView, id: u32)
    requires
        c.wf(),
        !c.unacknowledged.contains_key(id),
    ensures
        c.acknowledged(id) == c,
{
    assert(c.unacknowledged.remove(id) =~= c.unacknowledged);
}

/// The state one remote peer's traffic is checked against.
pub struct Connection {
    address: Address,
    attached_entity: Option<u64>,
    next_outgoing_id: u32,
    highest_acknowledged_id: u32,
    unacknowledged: HashMap<u32, Pending>,
    last_processed_incoming_id: u32,
    held: HashMap<u32, Message>,
}

impl View for Connection {
    type V = ConnectionView;

    closed spec fn view(&self) -> ConnectionView {
        ConnectionView {
            address: self.address,
            attached_entity: self.attached_entity,
            next_outgoing_id: self.next_outgoing_id,
            highest_acknowledged_id: self.highest_acknowledged_id,
            unacknowledged: self.unacknowledged@,
            last_processed_incoming_id: self.last_processed_incoming_id,
            held: self.held@,
        }
    }
}

impl Connection {
    /// The invariant that every operation keeps.
    pub open spec fn wf(&self) -> bool {
        self@.wf()
    }

    pub fn new(address: Address) -> (connection: Connection)
        ensures
            connection@ == ConnectionView::fresh(address),
            connection.wf(),
    {
        Connection {
            address,
            attached_entity: None,
            next_outgoing_id: 1,
            highest_acknowledged_id: 0,
            unacknowledged: HashMap::new(),
            last_processed_incoming_id: 0,
            held: HashMap::new(),
        }
    }

    pub fn address(&self) -> (address: Address)
        ensures
            address == self@.address,
    {
        self.address
    }

    pub fn attached_entity(&self) -> (entity: Option<u64>)
        ensures
            entity == self@.attached_entity,
    {
        self.attached_entity
    }

    /// Attaches the peer to a local entity, or detaches it.
    pub fn attach(&mut self, entity: Option<u64>)
        ensures
            final(self)@ == (ConnectionView { attached_entity: entity, ..old(self)@ }),
    {
        self.attached_entity = entity;
    }

    pub fn last_processed_incoming_id(&self) -> (id: u32)
        ensures
            id == self@.last_processed_incoming_id,
    {
        self.last_processed_incoming_id
    }

    pub fn highest_acknowledged_id(&self) -> (id: u32)
        ensures
            id == self@.highest_acknowledged_id,
    {
        self.highest_acknowledged_id
    }

    pub fn next_outgoing_id(&self) -> (id: u32)
        ensures
            id == self@.next_outgoing_id,
    {
        self.next_outgoing_id
    }

    /// Whether a message with this id waits for its predecessors.
    pub fn is_held(&self, id: u32) -> (held: bool)
        ensures
            held == self@.held.contains_key(id),
    {
        broadcast use vstd::std_specs::hash::group_hash_axioms;

        self.held.contains_key(&id)
    }

    /// The bookkeeping of the outgoing message `id`, while no `Response`
    /// has confirmed it.
    pub fn unacknowledged(&self, id: u32) -> (pending: Option<Pending>)
        ensures
            pending == (if self@.unacknowledged.contains_key(id) {
                Some(self@.unacknowledged[id])
            } else {
                None
            }),
    {
        broadcast use vstd::std_specs::hash::group_hash_axioms;

        match self.unacknowledged.get(&id) {
            Some(pending) => Some(*pending),
            None => None,
        }
    }

    /// Decides what to do with an incoming message: hand it on now, hold it
    /// until its predecessors have arrived, or drop it as a duplicate.
    pub fn filter_message(&mut self, message: Message) -> (current: Option<Message>)
        requires
            old(self).wf(),
        ensures
            final(self).wf(),
            current == old(self)@.delivered(message),
            final(self)@ == old(self)@.filtered(message),
    {
        broadcast use vstd::std_specs::hash::group_hash_axioms;

        proof {
            lemma_filtered_wf(self@, message);
        }
        match message.get_id() {
            None => Some(message),
            Some(id) => {
                if id <= self.last_processed_incoming_id {
                    None
                } else if id - 1 == self.last_processed_incoming_id {
                    self.held.remove(&id);
                    self.last_processed_incoming_id = id;
                    Some(message)
                } else {
                    self.held.insert(id, message);
                    None
                }
            },
        }
    }

    /// Takes out the held messages that follow the last processed one
    /// without a gap, in id order, and counts them as processed.
    pub fn take_next_held_messages(&mut self) -> (messages: Vec<Message>)
        requires
            old(self).wf(),
        ensures
            final(self).wf(),
            messages@ == old(self)@.releasable(),
            final(self)@ == old(self)@.released(),
    {
        broadcast use vstd::std_specs::hash::group_hash_axioms;

        let ghost before = self@;
        let mut messages: Vec<Message> = Vec::new();
        proof {
            assert(self@.held =~= before.held.remove_keys(
                Set::new(
                    |k: u32|
                        before.last_processed_incoming_id < k
                            <= self.last_processed_incoming_id,
                ),
            ));
        }
        while self.last_processed_incoming_id < u32::MAX && self.held.contains_key(
            &(self.last_processed_incoming_id + 1),
        )
            invariant
                before.wf(),
                self@.wf(),
                before.last_processed_incoming_id <= self.last_processed_incoming_id,
                self@ == (ConnectionView {
                    last_processed_incoming_id: self.last_processed_incoming_id,
                    held: self.held@,
                    ..before
                }),
                self.held@ == before.held.remove_keys(
                    Set::new(
                        |k: u32|
                            before.last_processed_incoming_id < k
                                <= self.last_processed_incoming_id,
                    ),
                ),
                self.last_processed_incoming_id == before.last_processed_incoming_id
                    + messages@.len(),
                messages@ + held_run(self.held@, self.last_processed_incoming_id)
                    == before.releasable(),
            decreases u32::MAX - self.last_processed_incoming_id,
        {
            let next: u32 = self.last_processed_incoming_id + 1;
            let ghost held_before = self.held@;
            let ghost taken = messages@;
            let removed = self.held.remove(&next);
            match removed {
                Some(message) => {
                    messages.push(message);
                },
                None => {},
            }
            self.last_processed_incoming_id = next;
            proof {
                lemma_held_run_above(held_before, self.held@, next);
                assert(held_run(held_before, (next - 1) as u32) == seq![held_before[next]]
                    + held_run(held_before, next));
                assert(messages@ + held_run(self.held@, next) =~= taken + held_run(
                    held_before,
                    (next - 1) as u32,
                ));
                assert(self.held@ =~= before.held.remove_keys(
                    Set::new(|k: u32| before.last_processed_incoming_id < k <= next),
                ));
            }
        }
        proof {
            assert(held_run(self.held@, self.last_processed_incoming_id).len() == 0);
            assert(messages@ =~= before.releasable());
            lemma_released(before);
        }
        messages
    }

    /// Stamps `message` with the next reliability id and records it as
    /// unacknowledged. Returns the stamped message to put on the wire, or
    /// `None` when the message cannot be sent reliably.
    pub fn send_reliably(&mut self, message: Message, now: u128) -> (wire: Option<Message>)
        requires
            old(self).wf(),
        ensures
            final(self).wf(),
            old(self)@.can_send(message) ==> wire == Some(
                message.stamped(old(self)@.next_outgoing_id),
            ) && final(self)@ == old(self)@.sent(message, now),
            !old(self)@.can_send(message) ==> wire is None && final(self)@ == old(self)@,
    {
        broadcast use vstd::std_specs::hash::group_hash_axioms;

        if !message.can_carry_id() || self.next_outgoing_id == u32::MAX {
            return None;
        }
        proof {
            lemma_sent_wf(self@, message, now);
        }
        let id: u32 = self.next_outgoing_id;
        let stamped = message.with_id(id);
        self.unacknowledged.insert(id, Pending { message: stamped, send_time: now, attempts: 1 });
        self.next_outgoing_id = id + 1;
        Some(stamped)
    }

    /// Records that the unacknowledged message `id` goes out once more at
    /// `now`, and returns it. Returns `None`, and changes nothing, when `id`
    /// is not unacknowledged.
    pub fn resend(&mut self, id: u32, now: u128) -> (wire: Option<Message>)
        requires
            old(self).wf(),
        ensures
            final(self).wf(),
            final(self)@ == old(self)@.resent(id, now),
            wire == (if old(self)@.unacknowledged.contains_key(id) {
                Some(old(self)@.unacknowledged[id].message)
            } else {
                None
            }),
    {
        broadcast use vstd::std_specs::hash::group_hash_axioms;

        proof {
            lemma_resent_wf(self@, id, now);
        }
        match self.unacknowledged(id) {
            None => None,
            Some(before) => {
                let attempts: u32 = if before.attempts < u32::MAX {
                    before.attempts + 1
                } else {
                    u32::MAX
                };
                self.unacknowledged.insert(
                    id,
                    Pending { message: before.message, send_time: now, attempts },
                );
                Some(before.message)
            },
        }
    }

    /// Takes note of a `Response` for `id`: the message is no longer
    /// unacknowledged, and the watermark moves up over every id that is
    /// now settled.
    pub fn acknowledge_message(&mut self, id: u32)
        requires
            old(self).wf(),
        ensures
            final(self).wf(),
            final(self)@ == old(self)@.acknowledged(id),
    {
        broadcast use vstd::std_specs::hash::group_hash_axioms;

        let ghost before = self@;
        proof {
            lemma_acknowledged_wf(before, id);
        }
        self.unacknowledged.remove(&id);
        while self.highest_acknowledged_id + 1 < self.next_outgoing_id
            && !self.unacknowledged.contains_key(&(self.highest_acknowledged_id + 1))
            invariant
                self.highest_acknowledged_id < self.next_outgoing_id,
                self.unacknowledged@ == before.unacknowledged.remove(id),
                self@ == (ConnectionView {
                    unacknowledged: self.unacknowledged@,
                    highest_acknowledged_id: self.highest_acknowledged_id,
                    ..before
                }),
                watermark(
                    self.unacknowledged@,
                    self.highest_acknowledged_id,
                    self.next_outgoing_id,
                ) == watermark(
                    before.unacknowledged.remove(id),
                    before.highest_acknowledged_id,
                    before.next_outgoing_id,
                ),
            decreases self.next_outgoing_id - self.highest_acknowledged_id,
        {
            self.highest_acknowledged_id = self.highest_acknowledged_id + 1;
        }
    }
}

} // verus!
