use bevy::ecs::entity::Entities;
use bevy::ecs::entity::Entity;
use hackathon_shooter::actions::ActorActions;
use hackathon_shooter::actions::ALL;
use hackathon_shooter::actions::ATTACK;
use hackathon_shooter::actions::MOVEMENT_FORWARD;
use hackathon_shooter::dispatch::on_message;
use hackathon_shooter::dispatch::on_message_as_client;
use hackathon_shooter::dispatch::on_message_as_server;
use hackathon_shooter::dispatch::Command;
use hackathon_shooter::entity::EntityConverter;
use hackathon_shooter::message::Address;
use hackathon_shooter::message::Message;
use hackathon_shooter::message::Position;
use hackathon_shooter::message::Velocity;

fn peer() -> Address {
    Address { ip: 0x0a00_0002, port: 9 }
}

#[test]
fn unknown_network_id_gets_a_placeholder_at_once() {
    let mut entities = Entities::default();
    let mut converter = EntityConverter::new();
    assert_eq!(converter.get(40), None);
    let handle = converter.to_internal(&mut entities, 40);
    assert!(handle.is_some());
    assert_eq!(converter.get(40), handle);
}

#[test]
fn translation_is_stable() {
    let mut entities = Entities::default();
    let mut converter = EntityConverter::new();
    let first = converter.to_internal(&mut entities, 40);
    let other = converter.to_internal(&mut entities, 41);
    assert_eq!(converter.to_internal(&mut entities, 40), first);
    assert_eq!(converter.to_internal(&mut entities, 41), other);
    assert_eq!(converter.to_internal(&mut entities, 40), first);
}

#[test]
fn translation_is_injective() {
    let mut entities = Entities::default();
    let mut converter = EntityConverter::new();
    let mut handles = Vec::new();
    for network_id in 0..200u32 {
        handles.push(converter.to_internal(&mut entities, network_id * 3).unwrap());
    }
    for (i, a) in handles.iter().enumerate() {
        for (j, b) in handles.iter().enumerate() {
            assert_eq!(a == b, i == j);
        }
    }
}

#[test]
fn placeholder_is_an_entity_of_the_allocator() {
    let mut entities = Entities::default();
    let mut converter = EntityConverter::new();
    let a = Entity::from_bits(converter.to_internal(&mut entities, 7).unwrap());
    let b = Entity::from_bits(converter.to_internal(&mut entities, 8).unwrap());
    assert_eq!(a.id(), 0);
    assert_eq!(b.id(), 1);
    let next = entities.reserve_entity();
    assert_eq!(next.id(), 2);
}

#[test]
fn adopt_binds_an_unknown_id_to_an_unused_handle() {
    let mut converter = EntityConverter::new();
    assert!(converter.adopt(5, 100));
    assert_eq!(converter.get(5), Some(100));
    assert_eq!(converter.to_external(100), Some(5));
    // A known id keeps its handle.
    assert!(!converter.adopt(5, 101));
    assert_eq!(converter.get(5), Some(100));
    assert_eq!(converter.to_external(101), None);
    // A handle in use is not given to a second id.
    assert!(!converter.adopt(6, 100));
    assert_eq!(converter.get(6), None);
    assert_eq!(converter.to_external(100), Some(5));
}

#[test]
fn a_handle_that_is_in_use_is_not_bound_again() {
    let mut entities = Entities::default();
    let mut converter = EntityConverter::new();
    // The first entity that the allocator gives has index 0 and generation 0.
    let first = Entity::from_raw(0).to_bits();
    assert!(converter.adopt(900, first));
    assert_eq!(converter.to_internal(&mut entities, 5), None);
    assert_eq!(converter.get(5), None);
    assert_eq!(converter.get(900), Some(first));
    // The next one is free.
    let second = converter.to_internal(&mut entities, 5);
    assert_eq!(second, Some(Entity::from_raw(1).to_bits()));
    assert_eq!(converter.to_external(second.unwrap()), Some(5));
}

#[test]
fn an_exhausted_allocator_gives_no_handle() {
    let mut entities = Entities::default();
    let mut converter = EntityConverter::new();
    let known = converter.to_internal(&mut entities, 1);
    assert!(known.is_some());
    // Take every index that is left, the largest included.
    let _ = entities.reserve_entities(u32::MAX - 1);
    assert_eq!(entities.reserve_entity().id(), u32::MAX);
    assert_eq!(converter.to_internal(&mut entities, 2), None);
    assert_eq!(converter.get(2), None);
    // A known id is still translated.
    assert_eq!(converter.to_internal(&mut entities, 1), known);

    let mut commands = Vec::new();
    let mut updates = Vec::new();
    let grant = Message::ActorGrant { id: Some(1), entity_id: 2 };
    let applied =
        on_message_as_client(&grant, &mut entities, &mut converter, &mut commands, &mut updates);
    assert!(!applied);
    assert_eq!(commands, Vec::<Command>::new());
    let grant = Message::ActorGrant { id: Some(2), entity_id: 1 };
    let applied =
        on_message_as_client(&grant, &mut entities, &mut converter, &mut commands, &mut updates);
    assert!(applied);
    assert_eq!(commands, vec![Command::ActorPlayerSet { entity: known.unwrap() }]);
}

#[test]
fn server_turns_join_into_a_join_command() {
    let mut commands = Vec::new();
    on_message_as_server(&peer(), &Message::Join { id: Some(1) }, None, &mut commands);
    assert_eq!(commands, vec![Command::ClientJoin { address: peer() }]);
}

#[test]
fn server_ignores_input_without_an_attached_entity() {
    let mut commands = Vec::new();
    let input = Message::ClientInput { id: Some(2), actions: 3, direction: 9 };
    on_message_as_server(&peer(), &input, None, &mut commands);
    let turn = Message::ClientInputDirection { id: None, direction: 9 };
    on_message_as_server(&peer(), &turn, None, &mut commands);
    assert_eq!(commands, Vec::<Command>::new());
}

#[test]
fn server_turns_input_into_actor_commands() {
    let mut commands = Vec::new();
    let input = Message::ClientInput { id: Some(2), actions: 3, direction: 9 };
    on_message_as_server(&peer(), &input, Some(55), &mut commands);
    let turn = Message::ClientInputDirection { id: None, direction: 11 };
    on_message_as_server(&peer(), &turn, Some(55), &mut commands);
    assert_eq!(
        commands,
        vec![
            Command::ActorActionsSet { entity: 55, actions: ActorActions { bits: 3 }, direction: 9 },
            Command::ActorDirectionSet { entity: 55, direction: 11 },
        ]
    );
}

#[test]
fn server_ignores_messages_meant_for_clients() {
    let mut commands = Vec::new();
    let others = [
        Message::JoinAccept { id: Some(1) },
        Message::ActorGrant { id: Some(2), entity_id: 1 },
        Message::EntityDelete { id: None, entity_id: 1 },
        Message::PositionUpdate { entity_id: 1, position: Position::new(0, 0, 0) },
        Message::Response { message_id: 1 },
    ];
    for message in others.iter() {
        on_message_as_server(&peer(), message, Some(1), &mut commands);
    }
    assert_eq!(commands, Vec::<Command>::new());
}

#[test]
fn client_translates_every_entity_id() {
    let mut entities = Entities::default();
    let mut converter = EntityConverter::new();
    let mut commands = Vec::new();
    let mut updates = Vec::new();
    let position = Position::new(1, 2, 3);
    let velocity = Velocity { x: 4, y: 5 };
    let messages = [
        Message::JoinAccept { id: Some(1) },
        Message::ActorSpawn { id: Some(2), entity_id: 70, actor_type: 1, position },
        Message::ActorGrant { id: Some(3), entity_id: 70 },
        Message::ProjectileSpawn {
            id: Some(4),
            position,
            velocity,
            acceleration_factor: 6,
            shooter_id: Some(70),
        },
        Message::ProjectileSpawn {
            id: Some(5),
            position,
            velocity,
            acceleration_factor: 6,
            shooter_id: None,
        },
        Message::EntityDelete { id: Some(6), entity_id: 71 },
    ];
    for message in messages.iter() {
        assert!(on_message_as_client(
            message,
            &mut entities,
            &mut converter,
            &mut commands,
            &mut updates
        ));
    }
    let actor = converter.get(70).unwrap();
    let deleted = converter.get(71).unwrap();
    assert_ne!(actor, deleted);
    assert_eq!(
        commands,
        vec![
            Command::Start,
            Command::ActorSet { entity: actor, actor_type: 1, position, is_ghost: false },
            Command::ActorPlayerSet { entity: actor },
            Command::ProjectileSpawn {
                position,
                velocity,
                acceleration_factor: 6,
                shooter: Some(actor),
            },
            Command::ProjectileSpawn { position, velocity, acceleration_factor: 6, shooter: None },
            Command::EntityDelete { entity: deleted },
        ]
    );
    assert_eq!(updates, Vec::<(u32, Position)>::new());
    // Deleting does not forget the binding.
    assert_eq!(converter.get(71), Some(deleted));
}

#[test]
fn client_queues_position_updates_under_the_entity_index() {
    let mut entities = Entities::default();
    let mut converter = EntityConverter::new();
    // An entity of generation 3 with index 9.
    let handle = (3u64 << 32) | 9;
    assert_eq!(Entity::from_bits(handle).id(), 9);
    assert_eq!(Entity::from_bits(handle).generation(), 3);
    assert!(converter.adopt(500, handle));
    let mut commands = Vec::new();
    let mut updates = Vec::new();
    let position = Position::new(1, 2, 3);
    let update = Message::PositionUpdate { entity_id: 500, position };
    on_message_as_client(&update, &mut entities, &mut converter, &mut commands, &mut updates);
    assert_eq!(updates, vec![(9, position)]);
    assert_eq!(commands, Vec::<Command>::new());

    let unknown = Message::PositionUpdate { entity_id: 501, position };
    on_message_as_client(&unknown, &mut entities, &mut converter, &mut commands, &mut updates);
    let placeholder = Entity::from_bits(converter.get(501).unwrap());
    assert_eq!(updates, vec![(9, position), (placeholder.id(), position)]);
}

#[test]
fn client_ignores_messages_meant_for_servers() {
    let mut entities = Entities::default();
    let mut converter = EntityConverter::new();
    let mut commands = Vec::new();
    let mut updates = Vec::new();
    let others = [
        Message::Join { id: Some(1) },
        Message::ClientInput { id: None, actions: 1, direction: 2 },
        Message::ClientInputDirection { id: None, direction: 2 },
        Message::Response { message_id: 4 },
    ];
    for message in others.iter() {
        on_message_as_client(message, &mut entities, &mut converter, &mut commands, &mut updates);
    }
    assert_eq!(commands, Vec::<Command>::new());
    assert_eq!(updates, Vec::<(u32, Position)>::new());
}

#[test]
fn dispatch_goes_by_role() {
    let mut entities = Entities::default();
    let mut converter = EntityConverter::new();
    let mut commands = Vec::new();
    let mut updates = Vec::new();
    let join = Message::Join { id: None };
    let accept = Message::JoinAccept { id: None };
    on_message(&peer(), &join, None, &mut entities, &mut converter, &mut commands, &mut updates, true);
    on_message(&peer(), &accept, None, &mut entities, &mut converter, &mut commands, &mut updates, true);
    assert_eq!(commands, vec![Command::ClientJoin { address: peer() }]);
    on_message(&peer(), &join, None, &mut entities, &mut converter, &mut commands, &mut updates, false);
    on_message(&peer(), &accept, None, &mut entities, &mut converter, &mut commands, &mut updates, false);
    assert_eq!(commands, vec![Command::ClientJoin { address: peer() }, Command::Start]);
}

#[test]
fn action_bits_that_stand_for_no_action_are_left_out() {
    let mut commands = Vec::new();
    let input = Message::ClientInput { id: None, actions: 0xe1, direction: 9 };
    on_message_as_server(&peer(), &input, Some(55), &mut commands);
    assert_eq!(
        commands,
        vec![Command::ActorActionsSet {
            entity: 55,
            actions: ActorActions { bits: 0x21 },
            direction: 9
        }]
    );
    let actions = ActorActions::from_bits_truncate(0xe1);
    assert_eq!(actions.bits(), MOVEMENT_FORWARD | ATTACK);
    assert!(actions.contains(ActorActions::from_bits_truncate(ATTACK)));
    assert!(!actions.contains(ActorActions::from_bits_truncate(0x02)));
    assert_eq!(ActorActions::from_bits_truncate(0xff).bits(), ALL);
    assert_eq!(ActorActions::from_bits_truncate(0xc0).bits(), 0);
}

#[test]
fn every_message_for_an_unknown_id_is_applied_with_a_new_placeholder() {
    let mut entities = Entities::default();
    let mut converter = EntityConverter::new();
    let mut commands = Vec::new();
    let mut updates = Vec::new();
    let position = Position::new(1, 2, 3);
    let velocity = Velocity { x: 4, y: 5 };
    let messages = [
        Message::ActorSpawn { id: None, entity_id: 10, actor_type: 2, position },
        Message::ActorGrant { id: None, entity_id: 11 },
        Message::PositionUpdate { entity_id: 12, position },
        Message::ProjectileSpawn {
            id: None,
            position,
            velocity,
            acceleration_factor: 6,
            shooter_id: Some(13),
        },
        Message::EntityDelete { id: None, entity_id: 14 },
    ];
    for message in messages.iter() {
        assert!(on_message_as_client(
            message,
            &mut entities,
            &mut converter,
            &mut commands,
            &mut updates
        ));
    }
    let handle = |index: u32| Entity::from_raw(index).to_bits();
    for (place, network_id) in (10..15u32).enumerate() {
        assert_eq!(converter.get(network_id), Some(handle(place as u32)));
    }
    assert_eq!(
        commands,
        vec![
            Command::ActorSet { entity: handle(0), actor_type: 2, position, is_ghost: false },
            Command::ActorPlayerSet { entity: handle(1) },
            Command::ProjectileSpawn {
                position,
                velocity,
                acceleration_factor: 6,
                shooter: Some(handle(3)),
            },
            Command::EntityDelete { entity: handle(4) },
        ]
    );
    assert_eq!(updates, vec![(2, position)]);
}
