use sokoban::components::{BoxColour, Position, Renderable, RenderableKind};
use sokoban::entities::{create_box, create_box_spot, create_floor, create_player, create_wall};
use sokoban::world::World;
use sokoban::level_text::{level_rows, load_level};
use sokoban::map::{load_map, tile_of, MapError, Tile};
use sokoban::systems::rendering_system::RenderingSystem;

fn grid(text: &str) -> Vec<Vec<String>> {
    level_rows(text)
}

fn strings(tokens: &[&str]) -> Vec<String> {
    tokens.iter().map(|t| t.to_string()).collect()
}

#[test]
fn level_text_is_cut_into_tokens() {
    assert_eq!(level_rows("\n  W P .  \n\tRB BS\r\n  "), vec![strings(&["W", "P", "."]), strings(&["RB", "BS"])]);
    assert_eq!(level_rows(""), vec![strings(&[""])]);
    assert_eq!(level_rows("W  P"), vec![strings(&["W", "", "P"])]);
    assert_eq!(level_rows("W\n\nP"), vec![strings(&["W"]), strings(&[""]), strings(&["P"])]);
}

#[test]
fn level_text_loads() {
    let world = load_level("  W P RB .\n  W . BS W  ").unwrap();
    assert_eq!(world.entities.len(), 14);
    assert_eq!(load_level("W  P").err(), Some(MapError::UnknownToken));
    assert_eq!(load_level("").err(), Some(MapError::UnknownToken));
    assert_eq!(load_level("W . .").err(), Some(MapError::PlayerCount));
}

#[test]
fn tokens() {
    assert_eq!(tile_of("W"), Some(Tile::Wall));
    assert_eq!(tile_of("."), Some(Tile::Floor));
    assert_eq!(tile_of("P"), Some(Tile::Player));
    assert_eq!(tile_of("N"), Some(Tile::Nothing));
    assert_eq!(tile_of("RB"), Some(Tile::Box(BoxColour::Red)));
    assert_eq!(tile_of("BB"), Some(Tile::Box(BoxColour::Blue)));
    assert_eq!(tile_of("RS"), Some(Tile::Spot(BoxColour::Red)));
    assert_eq!(tile_of("BS"), Some(Tile::Spot(BoxColour::Blue)));
    assert_eq!(tile_of("X"), None);
    assert_eq!(tile_of("BX"), None);
    assert_eq!(tile_of(""), None);
    assert_eq!(tile_of("WWW"), None);
}

const MAP_TEXT: &str = "
    N N W W W W W W
    W W W . . . . W
    W . . . BB . . W
    W . . RB . . . W 
    W . P . . . . W
    W . . . . RS . W
    W . . BS . . . W
    W . . . . . . W
    W W W W W W W W
    ";

#[test]
fn loads_the_built_in_level() {
    let rows = grid(MAP_TEXT);
    assert_eq!(rows.len(), 9);
    assert!(rows.iter().all(|r| r.len() == 8));
    let world = load_map(&rows).unwrap();
    assert_eq!(load_level(MAP_TEXT).unwrap().entities, world.entities);
    let players: Vec<_> = world.entities.iter().filter(|e| e.tags.player).collect();
    assert_eq!(players.len(), 1);
    assert_eq!((players[0].position.x, players[0].position.y), (2, 4));
    let boxes = world.entities.iter().filter(|e| e.tags.box_colour.is_some()).count();
    let spots = world.entities.iter().filter(|e| e.tags.spot_colour.is_some()).count();
    let walls = world.entities.iter().filter(|e| e.tags.wall && e.tags.immovable).count();
    assert_eq!((boxes, spots, walls), (2, 2, 30));
    assert_eq!(world.entities.len(), world.renderables.len());
    // 70 tiles other than N, each with a floor, and 35 things standing on them
    assert_eq!(world.entities.len(), 70 + 35);
}

#[test]
fn unknown_token_is_refused() {
    assert_eq!(load_map(&grid("W P X")).err(), Some(MapError::UnknownToken));
}

#[test]
fn player_count_is_checked() {
    assert_eq!(load_map(&grid("W . W")).err(), Some(MapError::PlayerCount));
    assert_eq!(load_map(&grid("P . P")).err(), Some(MapError::PlayerCount));
    assert!(load_map(&grid("P . .")).is_ok());
}

#[test]
fn oversized_level_is_refused() {
    assert_eq!(load_map(&grid("P . . . . . . . . .")).err(), Some(MapError::TooLarge));
    let tall = vec![vec!["P".to_string()]; 11];
    assert_eq!(load_map(&tall).err(), Some(MapError::TooLarge));
    let nine_wide = grid("P . . . . . . . .");
    assert!(load_map(&nine_wide).is_ok());
}

#[test]
fn images_cycle_through_frames() {
    let mut rs = RenderingSystem {};
    let still = Renderable::new_static("a.png".to_string());
    assert_eq!(still.kind(), RenderableKind::Static);
    assert_eq!(rs.get_image(&still, 7), "a.png");
    let anim = Renderable::new_animated(vec!["walk_a.png".to_string(), "walk_b.png".to_string(), "walk_c.png".to_string()]);
    assert_eq!(anim.kind(), RenderableKind::Animated);
    assert_eq!(rs.get_image(&anim, 0), "walk_a.png");
    assert_eq!(rs.get_image(&anim, 2), "walk_c.png");
    assert_eq!(rs.get_image(&anim, 3), "walk_a.png");
    assert_eq!(rs.get_image(&anim, 5), "walk_b.png");
    assert_eq!(BoxColour::Red.name(), "red");
    assert_eq!(BoxColour::Blue.name(), "blue");
}

#[test]
fn constructors_attach_their_images() {
    let p = Position { x: 1, y: 2, z: 0 };
    let mut world = World::new();
    create_wall(&mut world, p);
    create_floor(&mut world, p);
    create_box(&mut world, p, BoxColour::Blue);
    create_box_spot(&mut world, p, BoxColour::Red);
    create_player(&mut world, p);
    let paths: Vec<Vec<String>> = world.renderables.iter().map(|r| r.paths.clone()).collect();
    assert_eq!(
        paths,
        vec![
            strings(&["resources/images/wall.png"]),
            strings(&["resources/images/floor.png"]),
            strings(&["resources/images/box_blue_1.png", "resources/images/box_blue_2.png"]),
            strings(&["resources/images/box_spot_red.png"]),
            strings(&[
                "resources/images/player_1.png",
                "resources/images/player_2.png",
                "resources/images/player_3.png",
            ]),
        ]
    );
    let zs: Vec<u8> = world.entities.iter().map(|e| e.position.z).collect();
    assert_eq!(zs, vec![10, 5, 10, 9, 10]);
}
