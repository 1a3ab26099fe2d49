use sokoban::components::{BoxColour, Direction, Position};
use sokoban::entities::{create_box, create_box_spot, create_floor, create_player, create_wall};
use sokoban::events::{EntityMoved, Event};
use sokoban::game::Game;
use sokoban::resources::{EventQueue, Gameplay, GameplayState};
use sokoban::systems::input_system::{InputSystem, PressedKeys};
use sokoban::world::World;

fn at(x: u8, y: u8) -> Position {
    Position { x, y, z: 0 }
}

fn right() -> PressedKeys {
    PressedKeys { up: false, down: false, left: false, right: true }
}

fn no_keys() -> PressedKeys {
    PressedKeys { up: false, down: false, left: false, right: false }
}

fn moved(id: usize) -> Event {
    Event::EntityMoved(EntityMoved { id })
}

#[test]
fn push_single_box_then_hit_wall() {
    // P B . W on row 1
    let mut world = World::new();
    create_player(&mut world, at(0, 1));
    create_box(&mut world, at(1, 1), BoxColour::Red);
    create_floor(&mut world, at(2, 1));
    create_wall(&mut world, at(3, 1));
    let mut game = Game::new(world);

    let events = game.update(right());
    assert_eq!(game.world.entities[0].position.x, 1);
    assert_eq!(game.world.entities[1].position.x, 2);
    assert_eq!(game.world.entities[0].position.y, 1);
    assert_eq!(game.gameplay.moves_count, 1);
    assert_eq!(events, vec![moved(0), moved(1)]);

    let events = game.update(right());
    assert_eq!(game.world.entities[0].position.x, 1);
    assert_eq!(game.world.entities[1].position.x, 2);
    assert_eq!(game.gameplay.moves_count, 1);
    assert_eq!(events, vec![Event::PlayerHitObstacle]);
    assert!(game.event_queue.events.is_empty());
}

#[test]
fn box_against_wall_does_not_move() {
    let mut world = World::new();
    create_player(&mut world, at(2, 3));
    create_box(&mut world, at(2, 2), BoxColour::Blue);
    create_wall(&mut world, at(2, 1));
    let mut game = Game::new(world);
    let before = game.world.entities.clone();
    let events = game.update(PressedKeys { up: true, down: false, left: false, right: false });
    assert_eq!(game.world.entities, before);
    assert_eq!(events, vec![Event::PlayerHitObstacle]);
    assert_eq!(game.gameplay.moves_count, 0);
}

#[test]
fn chain_of_three_boxes_moves_together() {
    let mut world = World::new();
    create_player(&mut world, at(1, 4));
    create_box(&mut world, at(1, 5), BoxColour::Red);
    create_box(&mut world, at(1, 6), BoxColour::Blue);
    create_box(&mut world, at(1, 7), BoxColour::Red);
    create_wall(&mut world, at(1, 9));
    let mut game = Game::new(world);
    let events = game.update(PressedKeys { up: false, down: true, left: false, right: false });
    let ys: Vec<u8> = game.world.entities.iter().map(|e| e.position.y).collect();
    assert_eq!(ys, vec![5, 6, 7, 8, 9]);
    assert_eq!(events, vec![moved(0), moved(1), moved(2), moved(3)]);
    assert_eq!(game.gameplay.moves_count, 1);
}

#[test]
fn free_step_moves_only_player() {
    let mut world = World::new();
    create_floor(&mut world, at(3, 3));
    create_player(&mut world, at(3, 3));
    create_box(&mut world, at(5, 3), BoxColour::Red);
    let mut game = Game::new(world);
    let events = game.update(PressedKeys { up: false, down: false, left: true, right: false });
    assert_eq!(game.world.entities[1].position, Position { x: 2, y: 3, z: 10 });
    assert_eq!(game.world.entities[2].position.x, 5);
    assert_eq!(events, vec![moved(1)]);
    assert_eq!(game.gameplay.moves_count, 1);
}

#[test]
fn edge_without_wall_stops_the_push() {
    let mut world = World::new();
    create_player(&mut world, at(0, 0));
    let mut game = Game::new(world);
    let events = game.update(PressedKeys { up: true, down: false, left: false, right: false });
    assert!(events.is_empty());
    assert_eq!(game.world.entities[0].position.y, 0);
    assert_eq!(game.gameplay.moves_count, 0);
    let events = game.update(PressedKeys { up: false, down: false, left: true, right: false });
    assert!(events.is_empty());
    assert_eq!(game.world.entities[0].position.x, 0);
}

#[test]
fn box_can_reach_the_far_edge() {
    let mut world = World::new();
    create_player(&mut world, at(6, 0));
    create_box(&mut world, at(7, 0), BoxColour::Red);
    let mut game = Game::new(world);
    let events = game.update(right());
    assert_eq!(game.world.entities[1].position.x, 8);
    assert_eq!(events.len(), 2);
    let events = game.update(right());
    assert!(events.is_empty());
    assert_eq!(game.world.entities[1].position.x, 8);
    assert_eq!(game.world.entities[0].position.x, 7);
    assert_eq!(game.gameplay.moves_count, 1);
}

#[test]
fn only_first_pressed_key_counts() {
    let mut world = World::new();
    create_player(&mut world, at(4, 4));
    let mut game = Game::new(world);
    let events = game.update(PressedKeys { up: true, down: false, left: true, right: true });
    assert_eq!(events, vec![moved(0)]);
    assert_eq!(game.world.entities[0].position, Position { x: 4, y: 3, z: 10 });
    assert_eq!(game.gameplay.moves_count, 1);
}

#[test]
fn idle_tick_changes_nothing() {
    let mut world = World::new();
    create_player(&mut world, at(4, 4));
    let mut game = Game::new(world);
    let events = game.update(no_keys());
    assert!(events.is_empty());
    assert_eq!(game.gameplay.moves_count, 0);
    assert_eq!(game.gameplay.state, GameplayState::Playing);
}

#[test]
fn handle_button_press_appends_to_queue() {
    let mut world = World::new();
    create_player(&mut world, at(2, 2));
    create_box(&mut world, at(3, 2), BoxColour::Blue);
    let mut gameplay = Gameplay::default();
    let mut queue = EventQueue::default();
    queue.events.push(Event::PlayerHitObstacle);
    let mut input = InputSystem {};
    input.handle_button_press(&mut world, &mut gameplay, &mut queue, Direction::Right);
    assert_eq!(queue.events, vec![Event::PlayerHitObstacle, moved(0), moved(1)]);
    assert_eq!(gameplay.moves_count, 1);
    assert_eq!(world.entities[1].position.x, 4);
}

#[test]
fn moves_count_counts_inputs_not_entities() {
    let mut world = World::new();
    create_player(&mut world, at(0, 0));
    create_box(&mut world, at(1, 0), BoxColour::Red);
    create_box(&mut world, at(2, 0), BoxColour::Red);
    let mut game = Game::new(world);
    game.update(right());
    game.update(right());
    assert_eq!(game.gameplay.moves_count, 2);
    assert_eq!(game.world.entities[2].position.x, 4);
}

#[test]
fn player_count_stays_one() {
    let mut world = World::new();
    create_player(&mut world, at(1, 1));
    create_box(&mut world, at(2, 1), BoxColour::Red);
    create_box_spot(&mut world, at(3, 1), BoxColour::Blue);
    let mut game = Game::new(world);
    for _ in 0..5 {
        game.update(right());
    }
    let players = game.world.entities.iter().filter(|e| e.tags.player).count();
    assert_eq!(players, 1);
}
