use sokoban::components::{BoxColour, Position};
use sokoban::entities::{create_box, create_box_spot, create_player, create_wall};
use sokoban::events::{EntityMoved, Event};
use sokoban::game::Game;
use sokoban::resources::{EventQueue, Gameplay, GameplayState};
use sokoban::systems::event_system::{all_boxes_on_spots, EventSystem};
use sokoban::systems::input_system::PressedKeys;
use sokoban::world::World;

fn at(x: u8, y: u8) -> Position {
    Position { x, y, z: 0 }
}

fn right() -> PressedKeys {
    PressedKeys { up: false, down: false, left: false, right: true }
}

fn left() -> PressedKeys {
    PressedKeys { up: false, down: false, left: true, right: false }
}

#[test]
fn pushing_box_onto_spot_wins() {
    let mut world = World::new();
    create_player(&mut world, at(1, 1));
    create_box(&mut world, at(2, 1), BoxColour::Red);
    create_box_spot(&mut world, at(3, 1), BoxColour::Red);
    let mut game = Game::new(world);
    assert_eq!(game.gameplay.state, GameplayState::Playing);
    game.update(right());
    assert_eq!(game.gameplay.state, GameplayState::Won);
    assert_eq!(game.gameplay.moves_count, 1);
}

#[test]
fn won_is_kept_after_moving_away() {
    let mut world = World::new();
    create_player(&mut world, at(1, 1));
    create_box(&mut world, at(2, 1), BoxColour::Red);
    create_box_spot(&mut world, at(3, 1), BoxColour::Red);
    let mut game = Game::new(world);
    game.update(right());
    game.update(right());
    assert_eq!(game.world.entities[1].position.x, 4);
    assert_eq!(game.gameplay.state, GameplayState::Won);
    game.update(left());
    assert_eq!(game.gameplay.state, GameplayState::Won);
}

#[test]
fn wrong_colour_spot_does_not_win() {
    let mut world = World::new();
    create_player(&mut world, at(1, 1));
    create_box(&mut world, at(2, 1), BoxColour::Red);
    create_box_spot(&mut world, at(3, 1), BoxColour::Blue);
    let mut game = Game::new(world);
    game.update(right());
    assert_eq!(game.gameplay.state, GameplayState::Playing);
    assert!(!all_boxes_on_spots(&game.world));
}

#[test]
fn two_boxes_on_one_spot_do_not_win() {
    let mut world = World::new();
    create_box(&mut world, at(2, 2), BoxColour::Red);
    create_box(&mut world, at(2, 2), BoxColour::Red);
    create_box_spot(&mut world, at(2, 2), BoxColour::Red);
    assert!(!all_boxes_on_spots(&world));
    create_box_spot(&mut world, at(2, 2), BoxColour::Red);
    assert!(all_boxes_on_spots(&world));
}

#[test]
fn unoccupied_spot_does_not_win() {
    let mut world = World::new();
    create_box(&mut world, at(2, 2), BoxColour::Blue);
    create_box_spot(&mut world, at(2, 2), BoxColour::Blue);
    assert!(all_boxes_on_spots(&world));
    create_box_spot(&mut world, at(4, 2), BoxColour::Blue);
    assert!(!all_boxes_on_spots(&world));
}

#[test]
fn obstacle_event_alone_does_not_win() {
    let mut world = World::new();
    create_box(&mut world, at(2, 2), BoxColour::Blue);
    create_box_spot(&mut world, at(2, 2), BoxColour::Blue);
    let mut gameplay = Gameplay::default();
    let mut queue = EventQueue::default();
    queue.events.push(Event::PlayerHitObstacle);
    let mut es = EventSystem {};
    let drained = es.run(&world, &mut queue, &mut gameplay);
    assert_eq!(drained, vec![Event::PlayerHitObstacle]);
    assert!(queue.events.is_empty());
    assert_eq!(gameplay.state, GameplayState::Playing);

    queue.events.push(Event::EntityMoved(EntityMoved { id: 0 }));
    es.run(&world, &mut queue, &mut gameplay);
    assert_eq!(gameplay.state, GameplayState::Won);
}

#[test]
fn blocked_tick_does_not_win() {
    let mut world = World::new();
    create_player(&mut world, at(1, 1));
    create_wall(&mut world, at(2, 1));
    create_box(&mut world, at(5, 5), BoxColour::Blue);
    create_box_spot(&mut world, at(5, 5), BoxColour::Blue);
    let mut game = Game::new(world);
    let events = game.update(right());
    assert_eq!(events, vec![Event::PlayerHitObstacle]);
    assert_eq!(game.gameplay.state, GameplayState::Playing);
}

#[test]
fn state_names() {
    assert_eq!(GameplayState::Playing.to_string(), "Playing");
    assert_eq!(GameplayState::Won.to_string(), "Won");
    assert_eq!(GameplayState::default(), GameplayState::Playing);
    let g = Gameplay::default();
    assert_eq!(g.moves_count, 0);
}
