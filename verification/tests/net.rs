use bevy::ecs::entity::Entities;
use hackathon_shooter::actions::ActorActions;
use hackathon_shooter::codec::DecodeError;
use hackathon_shooter::dispatch::Command;
use hackathon_shooter::entity::EntityConverter;
use hackathon_shooter::message::Address;
use hackathon_shooter::message::Message;
use hackathon_shooter::message::Position;
use hackathon_shooter::net::message_receive;
use hackathon_shooter::net::NetResource;
use hackathon_shooter::net::Progress;
use hackathon_shooter::net::Receipt;

struct World {
    entities: Entities,
    commands: Vec<Command>,
    converter: EntityConverter,
    updates: Vec<(u32, Position)>,
    net: NetResource,
    responses: Vec<(Address, Message)>,
}

fn world(is_server: bool) -> World {
    World {
        entities: Entities::default(),
        commands: Vec::new(),
        converter: EntityConverter::new(),
        updates: Vec::new(),
        net: NetResource::new(is_server),
        responses: Vec::new(),
    }
}

fn take(world: &mut World, receipt: Receipt) -> Progress {
    message_receive(
        receipt,
        &mut world.entities,
        &mut world.commands,
        &mut world.converter,
        &mut world.updates,
        &mut world.net,
        &mut world.responses,
    )
}

fn datagram(address: Address, message: Message) -> Receipt {
    Receipt::Data { address, bytes: message.encode() }
}

fn alice() -> Address {
    Address { ip: 0xc0a8_0001, port: 5000 }
}

fn bob() -> Address {
    Address { ip: 0xc0a8_0001, port: 5001 }
}

#[test]
fn join_creates_one_connection_and_one_join_command() {
    let mut w = world(true);
    assert_eq!(w.net.connection_count(), 0);
    let progress = take(&mut w, datagram(alice(), Message::Join { id: Some(1) }));
    assert_eq!(progress, Progress::Handled { connected: true, dropped: 0 });
    assert_eq!(w.net.connection_count(), 1);
    assert_eq!(w.commands, vec![Command::ClientJoin { address: alice() }]);
    assert_eq!(w.responses, vec![(alice(), Message::Response { message_id: 1 })]);

    let input = Message::ClientInput { id: Some(2), actions: 1, direction: 0 };
    let progress = take(&mut w, datagram(alice(), input));
    assert_eq!(progress, Progress::Handled { connected: false, dropped: 0 });
    assert_eq!(w.net.connection_count(), 1);
    assert_eq!(w.commands, vec![Command::ClientJoin { address: alice() }]);
    let place = w.net.find(&alice()).unwrap();
    assert_eq!(w.net.connection(place).unwrap().last_processed_incoming_id(), 2);
    assert_eq!(
        w.responses,
        vec![
            (alice(), Message::Response { message_id: 1 }),
            (alice(), Message::Response { message_id: 2 }),
        ]
    );
}

#[test]
fn input_of_an_attached_peer_becomes_an_actor_command() {
    let mut w = world(true);
    take(&mut w, datagram(alice(), Message::Join { id: Some(1) }));
    assert!(w.net.attach(&alice(), Some(31)));
    assert!(!w.net.attach(&bob(), Some(32)));
    let input = Message::ClientInput { id: Some(2), actions: 6, direction: 8 };
    take(&mut w, datagram(alice(), input));
    assert_eq!(
        w.commands,
        vec![
            Command::ClientJoin { address: alice() },
            Command::ActorActionsSet { entity: 31, actions: ActorActions { bits: 6 }, direction: 8 },
        ]
    );
}

#[test]
fn each_address_has_its_own_connection() {
    let mut w = world(true);
    take(&mut w, datagram(alice(), Message::Join { id: Some(1) }));
    let progress = take(&mut w, datagram(bob(), Message::Join { id: Some(1) }));
    assert_eq!(progress, Progress::Handled { connected: true, dropped: 0 });
    assert_eq!(w.net.connection_count(), 2);
    assert_eq!(
        w.commands,
        vec![
            Command::ClientJoin { address: alice() },
            Command::ClientJoin { address: bob() },
        ]
    );
    assert_ne!(w.net.find(&alice()), w.net.find(&bob()));
    assert_eq!(w.net.find(&Address { ip: 1, port: 1 }), None);
}

#[test]
fn would_block_ends_the_drain() {
    let mut w = world(true);
    assert_eq!(take(&mut w, Receipt::WouldBlock), Progress::Drained);
    assert_eq!(w.net.connection_count(), 0);
    assert!(w.responses.is_empty());
}

#[test]
fn failed_receive_is_skipped() {
    let mut w = world(false);
    assert_eq!(take(&mut w, Receipt::Failed), Progress::ReceiveFailed);
    assert_eq!(w.net.connection_count(), 0);
    assert!(w.commands.is_empty());
}

#[test]
fn corrupted_datagram_touches_nothing() {
    let mut w = world(true);
    let mut bytes = Message::Join { id: Some(1) }.encode();
    bytes.pop();
    let progress = take(&mut w, Receipt::Data { address: alice(), bytes });
    assert_eq!(progress, Progress::Corrupted { error: DecodeError::Length });
    assert_eq!(w.net.connection_count(), 0);
    assert!(w.commands.is_empty());
    assert!(w.responses.is_empty());
    let progress = take(&mut w, Receipt::Data { address: alice(), bytes: Vec::new() });
    assert_eq!(progress, Progress::Corrupted { error: DecodeError::Empty });
    let progress = take(&mut w, Receipt::Data { address: alice(), bytes: vec![77, 1] });
    assert_eq!(progress, Progress::Corrupted { error: DecodeError::UnknownTag });
    assert_eq!(w.net.connection_count(), 0);
}

#[test]
fn out_of_order_messages_are_applied_in_order() {
    let mut w = world(false);
    take(&mut w, datagram(alice(), Message::JoinAccept { id: Some(1) }));
    take(&mut w, datagram(alice(), Message::EntityDelete { id: Some(3), entity_id: 8 }));
    assert_eq!(w.commands, vec![Command::Start]);
    assert_eq!(w.converter.get(8), None);
    take(&mut w, datagram(alice(), Message::ActorGrant { id: Some(2), entity_id: 8 }));
    let handle = w.converter.get(8).unwrap();
    assert_eq!(
        w.commands,
        vec![
            Command::Start,
            Command::ActorPlayerSet { entity: handle },
            Command::EntityDelete { entity: handle },
        ]
    );
    assert_eq!(
        w.responses,
        vec![
            (alice(), Message::Response { message_id: 1 }),
            (alice(), Message::Response { message_id: 3 }),
            (alice(), Message::Response { message_id: 2 }),
        ]
    );
}

#[test]
fn duplicate_is_acknowledged_again_but_not_applied() {
    let mut w = world(false);
    take(&mut w, datagram(alice(), Message::JoinAccept { id: Some(1) }));
    take(&mut w, datagram(alice(), Message::JoinAccept { id: Some(1) }));
    assert_eq!(w.commands, vec![Command::Start]);
    assert_eq!(w.responses.len(), 2);
    let place = w.net.find(&alice()).unwrap();
    assert_eq!(w.net.connection(place).unwrap().last_processed_incoming_id(), 1);
}

#[test]
fn position_updates_are_batched_and_not_acknowledged() {
    let mut w = world(false);
    let position = Position::new(10, 20, 30);
    take(&mut w, datagram(alice(), Message::PositionUpdate { entity_id: 4, position }));
    take(&mut w, datagram(alice(), Message::PositionUpdate { entity_id: 4, position }));
    let handle = w.converter.get(4).unwrap();
    let index = bevy::ecs::entity::Entity::from_bits(handle).id();
    assert_eq!(w.updates, vec![(index, position), (index, position)]);
    assert!(w.commands.is_empty());
    assert!(w.responses.is_empty());
}

#[test]
fn response_settles_an_outgoing_message_and_is_not_dispatched() {
    let mut w = world(true);
    take(&mut w, datagram(alice(), Message::Join { id: Some(1) }));
    let wire = w.net.send_reliably(&alice(), Message::JoinAccept { id: None }, 5);
    assert_eq!(wire, Some(Message::JoinAccept { id: Some(1) }));
    let place = w.net.find(&alice()).unwrap();
    assert!(w.net.connection(place).unwrap().unacknowledged(1).is_some());
    let before = w.commands.len();
    let responses = w.responses.len();
    take(&mut w, datagram(alice(), Message::Response { message_id: 1 }));
    assert!(w.net.connection(place).unwrap().unacknowledged(1).is_none());
    assert_eq!(w.net.connection(place).unwrap().highest_acknowledged_id(), 1);
    assert_eq!(w.commands.len(), before);
    assert_eq!(w.responses.len(), responses);
    // A response for an id never sent changes nothing.
    take(&mut w, datagram(alice(), Message::Response { message_id: 40 }));
    assert_eq!(w.net.connection(place).unwrap().highest_acknowledged_id(), 1);
    assert_eq!(w.net.connection(place).unwrap().next_outgoing_id(), 2);
}

#[test]
fn reliable_send_needs_a_known_peer() {
    let mut net = NetResource::new(true);
    assert!(net.is_server());
    assert_eq!(net.send_reliably(&alice(), Message::JoinAccept { id: None }, 5), None);
    assert_eq!(net.connection_count(), 0);
}

#[test]
fn resend_goes_through_the_peers_connection() {
    let mut w = world(true);
    take(&mut w, datagram(alice(), Message::Join { id: Some(1) }));
    w.net.send_reliably(&alice(), Message::JoinAccept { id: None }, 5);
    assert_eq!(w.net.resend(&alice(), 1, 9), Some(Message::JoinAccept { id: Some(1) }));
    let place = w.net.find(&alice()).unwrap();
    let pending = w.net.connection(place).unwrap().unacknowledged(1).unwrap();
    assert_eq!(pending.attempts, 2);
    assert_eq!(pending.send_time, 9);
    assert_eq!(w.net.resend(&alice(), 2, 9), None);
    assert_eq!(w.net.resend(&bob(), 1, 9), None);
    assert!(w.net.connection(7).is_none());
}

#[test]
fn a_message_that_cannot_be_translated_is_dropped_alone() {
    let mut w = world(false);
    // The handle that the allocator gives first belongs to another id.
    let first = bevy::ecs::entity::Entity::from_raw(0).to_bits();
    assert!(w.converter.adopt(900, first));
    take(&mut w, datagram(alice(), Message::EntityDelete { id: Some(3), entity_id: 900 }));
    take(&mut w, datagram(alice(), Message::ActorGrant { id: Some(2), entity_id: 8 }));
    let progress = take(&mut w, datagram(alice(), Message::JoinAccept { id: Some(1) }));
    // Applicable are 1, 2 and 3; 2 needs a handle and gets none.
    assert_eq!(progress, Progress::Handled { connected: false, dropped: 1 });
    assert_eq!(w.commands, vec![Command::Start, Command::EntityDelete { entity: first }]);
    assert_eq!(w.converter.get(8), None);
    let place = w.net.find(&alice()).unwrap();
    assert_eq!(w.net.connection(place).unwrap().last_processed_incoming_id(), 3);
}

#[test]
fn grants_arriving_1_3_2_from_a_new_peer_give_three_commands_in_order() {
    let mut w = world(false);
    let handle = |index: u32| bevy::ecs::entity::Entity::from_raw(index).to_bits();
    take(&mut w, datagram(alice(), Message::ActorGrant { id: Some(1), entity_id: 10 }));
    assert_eq!(w.commands, vec![Command::ActorPlayerSet { entity: handle(0) }]);
    let progress = take(&mut w, datagram(alice(), Message::ActorGrant { id: Some(3), entity_id: 30 }));
    assert_eq!(progress, Progress::Handled { connected: false, dropped: 0 });
    assert_eq!(w.commands.len(), 1);
    let place = w.net.find(&alice()).unwrap();
    assert_eq!(w.net.connection(place).unwrap().last_processed_incoming_id(), 1);
    assert!(w.net.connection(place).unwrap().is_held(3));
    assert_eq!(w.converter.get(30), None);
    take(&mut w, datagram(alice(), Message::ActorGrant { id: Some(2), entity_id: 20 }));
    assert_eq!(
        w.commands,
        vec![
            Command::ActorPlayerSet { entity: handle(0) },
            Command::ActorPlayerSet { entity: handle(1) },
            Command::ActorPlayerSet { entity: handle(2) },
        ]
    );
    assert_eq!(w.converter.get(10), Some(handle(0)));
    assert_eq!(w.converter.get(20), Some(handle(1)));
    assert_eq!(w.converter.get(30), Some(handle(2)));
    assert_eq!(w.net.connection(place).unwrap().last_processed_incoming_id(), 3);
    assert!(!w.net.connection(place).unwrap().is_held(3));
    assert_eq!(take(&mut w, Receipt::WouldBlock), Progress::Drained);
}

#[test]
fn an_unordered_message_releases_nothing() {
    let mut w = world(false);
    take(&mut w, datagram(alice(), Message::EntityDelete { id: Some(3), entity_id: 8 }));
    let position = Position::new(1, 2, 3);
    let progress = take(&mut w, datagram(alice(), Message::PositionUpdate { entity_id: 4, position }));
    assert_eq!(progress, Progress::Handled { connected: false, dropped: 0 });
    assert_eq!(w.updates.len(), 1);
    assert!(w.commands.is_empty());
    let place = w.net.find(&alice()).unwrap();
    assert!(w.net.connection(place).unwrap().is_held(3));
    assert_eq!(w.net.connection(place).unwrap().last_processed_incoming_id(), 0);
}
