//! The synchronisation layer: what one received datagram does to the
//! connections, which messages it makes applicable, and what is queued in
//! answer.
//!
//! The socket stays with the caller, who receives until the transport has
//! nothing more, hands each outcome to [`message_receive`], and sends the
//! queued responses afterwards.

use crate::codec::decoding;
use crate::codec::DecodeError;
use crate::connection::Connection;
use crate::connection::ConnectionView;
use crate::dispatch::client_step;
use crate::dispatch::on_message;
use crate::dispatch::translatable;
use crate::dispatch::ClientView;
use crate::dispatch::server_command;
use crate::dispatch::with_optional;
use crate::dispatch::Command;
use crate::entity::allocation;
use crate::entity::EntityConverter;
use crate::message::Address;
use crate::message::Message;
use crate::message::Position;
use bevy::ecs::entity::Entities;
use vstd::prelude::*;

verus! {

/// The outcome of one attempt to receive a datagram.
pub enum Receipt {
    /// A datagram arrived from `address`.
    Data { address: Address, bytes: Vec<u8> },
    /// The transport has nothing more for now.
    WouldBlock,
    /// The transport reported any other error.
    Failed,
}

/// What became of one receive outcome.
#[derive(Clone, Copy, PartialEq, Eq, Debug)]
pub enum Progress {
    /// Nothing is pending: the caller stops receiving for this tick.
    Drained,
    /// The receive failed; nothing was touched and the caller goes on.
    ReceiveFailed,
    /// The datagram is not a message; nothing was touched.
    Corrupted { error: DecodeError },
    /// The message was taken in. `connected` says that its sender was not
    /// known before. `dropped` counts the messages that it made applicable
    /// and that were not applied, because they refer to an entity that no
    /// local handle could be had for.
    Handled { connected: bool, dropped: usize },
}

/// The connection after one decoded message from its peer: a `Response`
/// settles an outgoing message, anything else goes through the filter, and
/// where the filter hands it on, the held messages that follow are released.
pub open spec fn connection_after(c: ConnectionView, message: Message) -> ConnectionView {
    match message {
        Message::Response { message_id } => c.acknowledged(message_id),
        _ => if c.delivered(message) is Some {
            c.filtered(message).released()
        } else {
            c.filtered(message)
        },
    }
}

/// The messages that one decoded message makes applicable, in the order in
/// which they are applied: the message itself, where the filter hands it on,
/// and then the held ones that it unblocks. A `Response` is never applied.
pub open spec fn applicable(c: ConnectionView, message: Message) -> Seq<Message> {
    if message is Response {
        Seq::empty()
    } else {
        match c.delivered(message) {
            Some(current) => seq![current] + c.filtered(message).releasable(),
            None => Seq::empty(),
        }
    }
}

/// The acknowledgment owed for a decoded message: one for every message
/// that carries a reliability id.
pub open spec fn response_for(address: Address, message: Message) -> Option<(Address, Message)> {
    match message.id() {
        Some(message_id) => Some((address, Message::Response { message_id })),
        None => None,
    }
}

/// The commands of a server for a sequence of applicable messages.
pub open spec fn server_commands(address: Address, messages: Seq<Message>, entity: Option<u64>) -> Seq<
    Command,
>
    decreases messages.len(),
{
    if messages.len() == 0 {
        Seq::empty()
    } else {
        with_optional(
            server_commands(address, messages.drop_last(), entity),
            server_command(address, messages.last(), entity),
        )
    }
}

/// The client after a sequence of applicable messages, taken in order.
pub open spec fn client_run(before: ClientView, messages: Seq<Message>) -> ClientView
    decreases messages.len(),
{
    if messages.len() == 0 {
        before
    } else {
        client_step(client_run(before, messages.drop_last()), messages.last())
    }
}

/// A run over one message is one step, and a run over a sequence with one
/// more message is the run over the sequence and then one step.
pub proof fn lemma_client_run_unfolds(before: ClientView, messages: Seq<Message>, last: Message)
    ensures
        client_run(before, Seq::empty()) == before,
        client_run(before, seq![last]) == client_step(before, last),
        client_run(before, messages.push(last)) == client_step(
            client_run(before, messages),
            last,
        ),
{
    assert(seq![last].drop_last() =~= Seq::<Message>::empty());
    assert(seq![last].last() == last);
    assert(client_run(before, seq![last].drop_last()) == before);
    assert(messages.push(last).drop_last() =~= messages);
    assert(messages.push(last).last() == last);
}

/// A sequence of messages never changes an earlier binding and never makes
/// two ids share a handle; it drops at most as many messages as it holds,
/// and none where every id that it refers to is bound already, in which
/// case the translation and the allocator stay as they were.
pub proof fn lemma_client_run(before: ClientView, messages: Seq<Message>)
    requires
        before.handles.is_injective(),
    ensures
        before.handles.submap_of(client_run(before, messages).handles),
        client_run(before, messages).handles.is_injective(),
        before.dropped <= client_run(before, messages).dropped <= before.dropped
            + messages.len(),
        (forall|i: int|
            0 <= i < messages.len() ==> translatable(#[trigger] messages[i], before.handles)) ==> {
            &&& client_run(before, messages).dropped == before.dropped
            &&& client_run(before, messages).handles == before.handles
            &&& client_run(before, messages).allocation == before.allocation
        },
    decreases messages.len(),
{
    if messages.len() > 0 {
        let front = messages.drop_last();
        lemma_client_run(before, front);
        let middle = client_run(before, front);
        crate::dispatch::lemma_client_step(middle, messages.last());
        let after = client_step(middle, messages.last());
        assert forall|id: u32| #[trigger] before.handles.dom().contains(id) implies after.handles.dom().contains(
            id,
        ) && before.handles[id] == after.handles[id] by {
            assert(middle.handles.dom().contains(id));
            assert(after.handles.dom().contains(id));
        }
        if forall|i: int|
            0 <= i < messages.len() ==> translatable(#[trigger] messages[i], before.handles) {
            assert forall|i: int| 0 <= i < front.len() implies translatable(
                #[trigger] front[i],
                before.handles,
            ) by {
                assert(front[i] == messages[i]);
            }
            assert(translatable(messages[messages.len() - 1], before.handles));
        }
    }
}

/// The mathematical content of a [`NetResource`].
pub struct NetView {
    pub is_server: bool,
    pub connections: Seq<ConnectionView>,
}

impl NetView {
    /// Every connection meets its invariant and holds nothing that could
    /// be applied, and no two have one address.
    pub open spec fn wf(self) -> bool {
        &&& forall|i: int| 0 <= i < self.connections.len() ==> (#[trigger] self.connections[i]).wf()
        &&& forall|i: int|
            0 <= i < self.connections.len() ==> (#[trigger] self.connections[i]).is_released()
        &&& forall|i: int, j: int|
            0 <= i < j < self.connections.len() ==> (#[trigger] self.connections[i]).address != (
            #[trigger] self.connections[j]).address
    }

    /// Whether a connection with this peer exists.
    pub open spec fn knows(self, address: Address) -> bool {
        exists|i: int|
            0 <= i < self.connections.len() && (#[trigger] self.connections[i]).address == address
    }

    /// The place of the peer's connection, if it exists.
    pub open spec fn place(self, address: Address) -> int {
        choose|i: int|
            0 <= i < self.connections.len() && (#[trigger] self.connections[i]).address == address
    }

    /// The peer's connection as a datagram from it finds it: the one that
    /// exists, or a fresh one.
    pub open spec fn connection_of(self, address: Address) -> ConnectionView {
        if self.knows(address) {
            self.connections[self.place(address)]
        } else {
            ConnectionView::fresh(address)
        }
    }

    /// The connections after `connection` took the place of the peer's
    /// connection, or was added where the peer was not known.
    pub open spec fn with_connection(self, address: Address, connection: ConnectionView) -> NetView {
        if self.knows(address) {
            NetView {
                connections: self.connections.update(self.place(address), connection),
                ..self
            }
        } else {
            NetView { connections: self.connections.push(connection), ..self }
        }
    }

    /// The connections after a decoded message arrived from `address`.
    pub open spec fn received(self, address: Address, message: Message) -> NetView {
        self.with_connection(address, connection_after(self.connection_of(address), message))
    }
}

/// The first datagram from an address adds exactly one connection, the
/// sender's; a datagram from a known address adds none. Either way the
/// invariant is kept and the sender is known afterwards.
pub proof fn lemma_received(net: NetView, address: Address, message: Message)
    requires
        net.wf(),
    ensures
        net.received(address, message).wf(),
        net.received(address, message).knows(address),
        !net.knows(address) ==> net.received(address, message).connections.len()
            == net.connections.len() + 1,
        net.knows(address) ==> net.received(address, message).connections.len()
            == net.connections.len(),
        net.received(address, message).connection_of(address) == connection_after(
            net.connection_of(address),
            message,
        ),
{
    let before = net.connection_of(address);
    let after = connection_after(before, message);
    lemma_connection_after_wf(before, message);
    let next = net.received(address, message);
    if net.knows(address) {
        let at = net.place(address);
        assert(next.connections[at].address == address);
    } else {
        crate::connection::lemma_fresh_wf(address);
        let at = net.connections.len() as int;
        assert(next.connections[at].address == address);
        assert forall|i: int, j: int| 0 <= i < j < next.connections.len() implies (
        #[trigger] next.connections[i]).address != (#[trigger] next.connections[j]).address by {
            if j == at {
                assert(net.connections[i].address != address);
            }
        }
    }
    let place = next.place(address);
    assert(next.connections[place].address == address);
    if net.knows(address) {
        let at = net.place(address);
        if place != at {
            if place < at {
                assert(next.connections[place].address != next.connections[at].address);
            } else {
                assert(next.connections[at].address != next.connections[place].address);
            }
        }
    } else {
        let at = net.connections.len() as int;
        if place != at {
            assert(net.connections[place].address == address);
        }
    }
}

/// One decoded message keeps the invariant of a connection, leaves nothing
/// behind that could be applied, and leaves the connection's address and its
/// attached entity alone.
pub proof fn lemma_connection_after_wf(c: ConnectionView, message: Message)
    requires
        c.wf(),
        c.is_released(),
    ensures
        connection_after(c, message).wf(),
        connection_after(c, message).is_released(),
        connection_after(c, message).address == c.address,
        connection_after(c, message).attached_entity == c.attached_entity,
{
    match message {
        Message::Response { message_id } => {
            crate::connection::lemma_acknowledged_wf(c, message_id);
        },
        _ => {
            crate::connection::lemma_filtered_wf(c, message);
            crate::connection::lemma_released(c.filtered(message));
        },
    }
}

/// A message without a reliability id is applied alone: it releases
/// nothing, since nothing waits on a connection that could be applied.
pub proof fn lemma_unordered_releases_nothing(net: NetView, address: Address, message: Message)
    requires
        net.wf(),
        message.id() is None,
        !(message is Response),
    ensures
        applicable(net.connection_of(address), message) == seq![message],
        net.received(address, message).connection_of(address) == net.connection_of(address),
{
    let c = net.connection_of(address);
    if net.knows(address) {
        assert(net.connections[net.place(address)].is_released());
    }
    assert(c.filtered(message).releasable().len() == 0);
    assert(applicable(c, message) =~= seq![message]);
    lemma_received(net, address, message);
    assert(c.released().held =~= c.held);
    assert(connection_after(c, message) == c);
}

/// Ordered delivery: the reliable messages that one arrival makes applicable
/// carry the ids that follow the last processed one, each id once and none
/// left out, whatever the order of arrival was.
pub proof fn lemma_applicable_in_order(c: ConnectionView, message: Message)
    requires
        c.wf(),
        message.id() is Some,
    ensures
        forall|i: int|
            0 <= i < applicable(c, message).len() ==> (#[trigger] applicable(c, message)[i]).id()
                == Some((c.last_processed_incoming_id + 1 + i) as u32),
        connection_after(c, message).last_processed_incoming_id == c.last_processed_incoming_id
            + applicable(c, message).len(),
{
    if c.delivered(message) is Some {
        let accepted = c.filtered(message);
        crate::connection::lemma_filtered_wf(c, message);
        crate::connection::lemma_released(accepted);
        let run = accepted.releasable();
        assert forall|i: int| 0 <= i < applicable(c, message).len() implies (
        #[trigger] applicable(c, message)[i]).id() == Some(
            (c.last_processed_incoming_id + 1 + i) as u32,
        ) by {
            if i > 0 {
                assert(applicable(c, message)[i] == run[i - 1]);
            }
        }
    }
}

/// The connections of this process, one per remote address.
pub struct NetResource {
    is_server: bool,
    connections: Vec<Connection>,
}

impl View for NetResource {
    type V = NetView;

    closed spec fn view(&self) -> NetView {
        NetView {
            is_server: self.is_server,
            connections: Seq::new(self.connections@.len(), |i: int| self.connections@[i]@),
        }
    }
}

impl NetResource {
    /// The invariant that every operation keeps.
    pub open spec fn wf(&self) -> bool {
        self@.wf()
    }

    pub fn new(is_server: bool) -> (net: NetResource)
        ensures
            net.wf(),
            net@.is_server == is_server,
            net@.connections.len() == 0,
    {
        NetResource { is_server, connections: Vec::new() }
    }

    pub fn is_server(&self) -> (is_server: bool)
        ensures
            is_server == self@.is_server,
    {
        self.is_server
    }

    /// The number of peers that a datagram has arrived from.
    pub fn connection_count(&self) -> (count: usize)
        ensures
            count == self@.connections.len(),
    {
        self.connections.len()
    }

    /// The place of the connection with the peer at `address`.
    pub fn find(&self, address: &Address) -> (place: Option<usize>)
        requires
            self.wf(),
        ensures
            match place {
                Some(at) => self@.knows(*address) && at == self@.place(*address),
                None => !self@.knows(*address),
            },
    {
        let mut at: usize = 0;
        while at < self.connections.len()
            invariant
                at <= self.connections.len(),
                self.wf(),
                forall|i: int| 0 <= i < at ==> (#[trigger] self@.connections[i]).address != *address,
            decreases self.connections.len() - at,
        {
            if self.connections[at].address() == *address {
                proof {
                    let found = at as int;
                    assert(self@.connections[found].address == *address);
                    let chosen = self@.place(*address);
                    if chosen < found {
                        assert(self@.connections[chosen].address != self@.connections[found].address);
                    } else if found < chosen {
                        assert(self@.connections[found].address != self@.connections[chosen].address);
                    }
                }
                return Some(at);
            }
            at = at + 1;
        }
        None
    }

    /// The connection at `place`, if there is one.
    pub fn connection(&self, place: usize) -> (connection: Option<&Connection>)
        ensures
            match connection {
                Some(connection) => place < self@.connections.len() && connection@
                    == self@.connections[place as int],
                None => place >= self@.connections.len(),
            },
    {
        if place < self.connections.len() {
            Some(&self.connections[place])
        } else {
            None
        }
    }

    /// Attaches the peer at `address` to a local entity, or detaches it.
    /// Returns whether the peer is known; nothing changes if it is not.
    pub fn attach(&mut self, address: &Address, entity: Option<u64>) -> (known: bool)
        requires
            old(self).wf(),
        ensures
            final(self).wf(),
            known == old(self)@.knows(*address),
            final(self)@ == (if known {
                old(self)@.with_connection(
                    *address,
                    ConnectionView {
                        attached_entity: entity,
                        ..old(self)@.connection_of(*address)
                    },
                )
            } else {
                old(self)@
            }),
    {
        match self.find(address) {
            None => false,
            Some(at) => {
                self.connections[at].attach(entity);
                proof {
                    let target = old(self)@.with_connection(
                        *address,
                        ConnectionView {
                            attached_entity: entity,
                            ..old(self)@.connection_of(*address)
                        },
                    );
                    assert(self@.connections =~= target.connections);
                }
                true
            },
        }
    }

    /// Sends `message` reliably to the known peer at `address`: stamps it
    /// with the connection's next id and records it as unacknowledged.
    /// Returns the message to put on the wire.
    pub fn send_reliably(&mut self, address: &Address, message: Message, now: u128) -> (wire:
        Option<Message>)
        requires
            old(self).wf(),
        ensures
            final(self).wf(),
            old(self)@.knows(*address) && old(self)@.connection_of(*address).can_send(message) ==> {
                &&& wire == Some(
                    message.stamped(old(self)@.connection_of(*address).next_outgoing_id),
                )
                &&& final(self)@ == old(self)@.with_connection(
                    *address,
                    old(self)@.connection_of(*address).sent(message, now),
                )
            },
            !(old(self)@.knows(*address) && old(self)@.connection_of(*address).can_send(message))
                ==> wire is None && final(self)@ == old(self)@,
    {
        match self.find(address) {
            None => None,
            Some(at) => {
                let wire = self.connections[at].send_reliably(message, now);
                proof {
                    let before = old(self)@.connection_of(*address);
                    if before.can_send(message) {
                        crate::connection::lemma_sent_wf(before, message, now);
                        let target = old(self)@.with_connection(
                            *address,
                            before.sent(message, now),
                        );
                        assert(self@.connections =~= target.connections);
                    } else {
                        assert(self@.connections =~= old(self)@.connections);
                    }
                }
                wire
            },
        }
    }

    /// Records that the unacknowledged message `id` of the peer at
    /// `address` goes out once more at `now`, and returns it. Returns
    /// `None`, and changes nothing, when the peer is not known or `id` is
    /// not unacknowledged.
    pub fn resend(&mut self, address: &Address, id: u32, now: u128) -> (wire: Option<Message>)
        requires
            old(self).wf(),
        ensures
            final(self).wf(),
            wire == (if old(self)@.knows(*address) && old(self)@.connection_of(
                *address,
            ).unacknowledged.contains_key(id) {
                Some(old(self)@.connection_of(*address).unacknowledged[id].message)
            } else {
                None
            }),
            final(self)@ == (if old(self)@.knows(*address) {
                old(self)@.with_connection(
                    *address,
                    old(self)@.connection_of(*address).resent(id, now),
                )
            } else {
                old(self)@
            }),
    {
        match self.find(address) {
            None => None,
            Some(at) => {
                let wire = self.connections[at].resend(id, now);
                proof {
                    let before = old(self)@.connection_of(*address);
                    crate::connection::lemma_resent_wf(before, id, now);
                    let target = old(self)@.with_connection(*address, before.resent(id, now));
                    assert(self@.connections =~= target.connections);
                }
                wire
            },
        }
    }
}

/// Applies a sequence of applicable messages of one peer in order. Returns
/// how many of them were dropped.
fn on_messages(
    address: &Address,
    messages: &Vec<Message>,
    entity: Option<u64>,
    entities: &mut Entities,
    converter: &mut EntityConverter,
    commands: &mut Vec<Command>,
    position_updates: &mut Vec<(u32, Position)>,
    is_server: bool,
) -> (dropped: usize)
    requires
        old(converter).wf(),
    ensures
        final(converter).wf(),
        dropped <= messages@.len(),
        is_server ==> {
            &&& dropped == 0
            &&& final(converter)@ == old(converter)@
            &&& *final(entities) == *old(entities)
            &&& final(position_updates)@ == old(position_updates)@
            &&& final(commands)@ == old(commands)@ + server_commands(*address, messages@, entity)
        },
        !is_server ==> (ClientView {
            handles: final(converter)@,
            allocation: allocation(*final(entities)),
            commands: final(commands)@,
            position_updates: final(position_updates)@,
            dropped: dropped as nat,
        }) == client_run(
            ClientView {
                handles: old(converter)@,
                allocation: allocation(*old(entities)),
                commands: old(commands)@,
                position_updates: old(position_updates)@,
                dropped: 0,
            },
            messages@,
        ),
{
    let ghost start = ClientView {
        handles: converter@,
        allocation: allocation(*entities),
        commands: commands@,
        position_updates: position_updates@,
        dropped: 0,
    };
    let mut done: usize = 0;
    let mut dropped: usize = 0;
    proof {
        assert(messages@.take(0) =~= Seq::<Message>::empty());
        assert(commands@ =~= old(commands)@ + Seq::<Command>::empty());
    }
    while done < messages.len()
        invariant
            done <= messages.len(),
            dropped <= done,
            converter.wf(),
            start == (ClientView {
                handles: old(converter)@,
                allocation: allocation(*old(entities)),
                commands: old(commands)@,
                position_updates: old(position_updates)@,
                dropped: 0,
            }),
            is_server ==> {
                &&& dropped == 0
                &&& converter@ == old(converter)@
                &&& *entities == *old(entities)
                &&& position_updates@ == old(position_updates)@
                &&& commands@ == old(commands)@ + server_commands(
                    *address,
                    messages@.take(done as int),
                    entity,
                )
            },
            !is_server ==> (ClientView {
                handles: converter@,
                allocation: allocation(*entities),
                commands: commands@,
                position_updates: position_updates@,
                dropped: dropped as nat,
            }) == client_run(start, messages@.take(done as int)),
        decreases messages.len() - done,
    {
        let ghost front = messages@.take(done as int);
        let ghost next = messages@.take(done + 1);
        let applied = on_message(
            address,
            &messages[done],
            entity,
            entities,
            converter,
            commands,
            position_updates,
            is_server,
        );
        proof {
            assert(next.drop_last() =~= front);
            assert(next.last() == messages@[done as int]);
        }
        if !applied {
            dropped = dropped + 1;
        }
        done = done + 1;
    }
    proof {
        assert(messages@.take(done as int) =~= messages@);
    }
    dropped
}

/// Takes in the outcome of one receive: decodes the datagram, finds or
/// creates the sender's connection, settles or filters the message, queues
/// the acknowledgment it is owed, and applies what has become applicable.
///
/// A datagram that is no message, or a failed receive, touches nothing. A
/// server applies every applicable message. A client applies each in its
/// turn; one that refers to an entity for which no local handle can be had
/// is dropped and counted.
pub fn message_receive(
    receipt: Receipt,
    entities: &mut Entities,
    commands: &mut Vec<Command>,
    entity_converter: &mut EntityConverter,
    position_updates: &mut Vec<(u32, Position)>,
    net: &mut NetResource,
    responses: &mut Vec<(Address, Message)>,
) -> (progress: Progress)
    requires
        old(net).wf(),
        old(entity_converter).wf(),
    ensures
        final(net).wf(),
        final(entity_converter).wf(),
        final(net)@.is_server == old(net)@.is_server,
        match receipt {
            Receipt::WouldBlock => progress == Progress::Drained,
            Receipt::Failed => progress == Progress::ReceiveFailed,
            Receipt::Data { address, bytes } => match decoding(bytes@) {
                Err(error) => progress == (Progress::Corrupted { error }),
                Ok(message) => progress matches Progress::Handled { connected, dropped }
                    && connected == !old(net)@.knows(address),
            },
        },
        !(progress is Handled) ==> {
            &&& final(net)@ == old(net)@
            &&& final(responses)@ == old(responses)@
            &&& final(commands)@ == old(commands)@
            &&& final(entity_converter)@ == old(entity_converter)@
            &&& *final(entities) == *old(entities)
            &&& final(position_updates)@ == old(position_updates)@
        },
        match (receipt, progress) {
            (Receipt::Data { address, bytes }, Progress::Handled { connected, dropped }) => match decoding(
                bytes@,
            ) {
                Ok(message) => {
                    let before = old(net)@.connection_of(address);
                    let applicable = applicable(before, message);
                    &&& final(net)@ == old(net)@.received(address, message)
                    &&& final(responses)@ == with_optional(
                        old(responses)@,
                        response_for(address, message),
                    )
                    &&& old(net)@.is_server ==> {
                        &&& dropped == 0
                        &&& final(entity_converter)@ == old(entity_converter)@
                        &&& *final(entities) == *old(entities)
                        &&& final(position_updates)@ == old(position_updates)@
                        &&& final(commands)@ == old(commands)@ + server_commands(
                            address,
                            applicable,
                            before.attached_entity,
                        )
                    }
                    &&& !old(net)@.is_server ==> (ClientView {
                        handles: final(entity_converter)@,
                        allocation: allocation(*final(entities)),
                        commands: final(commands)@,
                        position_updates: final(position_updates)@,
                        dropped: dropped as nat,
                    }) == client_run(
                        ClientView {
                            handles: old(entity_converter)@,
                            allocation: allocation(*old(entities)),
                            commands: old(commands)@,
                            position_updates: old(position_updates)@,
                            dropped: 0,
                        },
                        applicable,
                    )
                },
                Err(_) => true,
            },
            _ => true,
        },
{
    let (address, bytes) = match receipt {
        Receipt::WouldBlock => {
            return Progress::Drained;
        },
        Receipt::Failed => {
            return Progress::ReceiveFailed;
        },
        Receipt::Data { address, bytes } => (address, bytes),
    };
    let message = match Message::decode(bytes.as_slice()) {
        Ok(message) => message,
        Err(error) => {
            return Progress::Corrupted { error };
        },
    };
    let is_server = net.is_server;
    let ghost before = net@.connection_of(address);
    proof {
        lemma_received(net@, address, message);
    }
    let (at, connected) = match net.find(&address) {
        Some(at) => (at, false),
        None => {
            net.connections.push(Connection::new(address));
            (net.connections.len() - 1, true)
        },
    };
    assert(net.connections@[at as int]@ == before);
    let mut applicable: Vec<Message> = Vec::new();
    let entity = net.connections[at].attached_entity();
    if let Message::Response { message_id } = message {
        net.connections[at].acknowledge_message(message_id);
    } else {
        if let Some(message_id) = message.get_id() {
            responses.push((address, Message::Response { message_id }));
        }
        if let Some(current) = net.connections[at].filter_message(message) {
            applicable.push(current);
            let mut next_messages = net.connections[at].take_next_held_messages();
            applicable.append(&mut next_messages);
        }
    }
    proof {
        assert(net.connections@[at as int]@ == connection_after(before, message));
        assert(net@.connections =~= old(net)@.received(address, message).connections);
        assert(applicable@ =~= crate::net::applicable(before, message));
    }
    let dropped = on_messages(
        &address,
        &applicable,
        entity,
        entities,
        entity_converter,
        commands,
        position_updates,
        is_server,
    );
    Progress::Handled { connected, dropped }
}

} // verus!
