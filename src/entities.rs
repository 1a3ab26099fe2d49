use vstd::prelude::*;

use crate::components::{BoxColour, EntityRecord, Position, Renderable, Tags};
use crate::world::{in_bounds, World};

verus! {

/// A record with no tags at `position`, drawn on layer `z`.
pub open spec fn untagged(position: Position, z: u8) -> EntityRecord {
    EntityRecord {
        position: Position { x: position.x, y: position.y, z },
        tags: Tags {
            player: false,
            wall: false,
            box_colour: None,
            spot_colour: None,
            movable: false,
            immovable: false,
        },
    }
}

pub open spec fn wall_record(position: Position) -> EntityRecord {
    let r = untagged(position, 10);
    EntityRecord { tags: Tags { wall: true, immovable: true, ..r.tags }, ..r }
}

pub open spec fn floor_record(position: Position) -> EntityRecord {
    untagged(position, 5)
}

pub open spec fn box_record(position: Position, colour: BoxColour) -> EntityRecord {
    let r = untagged(position, 10);
    EntityRecord { tags: Tags { box_colour: Some(colour), movable: true, ..r.tags }, ..r }
}

pub open spec fn box_spot_record(position: Position, colour: BoxColour) -> EntityRecord {
    let r = untagged(position, 9);
    EntityRecord { tags: Tags { spot_colour: Some(colour), ..r.tags }, ..r }
}

/// The image frames of a box of `colour`.
pub open spec fn box_frames(colour: BoxColour) -> Seq<Seq<char>> {
    match colour {
        BoxColour::Red => seq!["resources/images/box_red_1.png"@, "resources/images/box_red_2.png"@],
        BoxColour::Blue => seq!["resources/images/box_blue_1.png"@, "resources/images/box_blue_2.png"@],
    }
}

/// The image of a spot of `colour`.
pub open spec fn box_spot_image(colour: BoxColour) -> Seq<char> {
    match colour {
        BoxColour::Red => "resources/images/box_spot_red.png"@,
        BoxColour::Blue => "resources/images/box_spot_blue.png"@,
    }
}

/// `after` is `before` with one more image record, drawn with `frames`.
pub open spec fn adds_image(before: Seq<Renderable>, after: Seq<Renderable>, frames: Seq<Seq<char>>) -> bool {
    &&& after.len() == before.len() + 1
    &&& after.drop_last() == before
    &&& after.last().paths_view() == frames
}

pub open spec fn player_record(position: Position) -> EntityRecord {
    let r = untagged(position, 10);
    EntityRecord { tags: Tags { player: true, movable: true, ..r.tags }, ..r }
}

fn no_tags() -> (t: Tags)
    ensures
        t == untagged(Position { x: 0, y: 0, z: 0 }, 0).tags,
{
    Tags {
        player: false,
        wall: false,
        box_colour: None,
        spot_colour: None,
        movable: false,
        immovable: false,
    }
}

/// A wall: immovable, drawn above the floor.
pub fn create_wall(world: &mut World, position: Position)
    requires
        old(world).wf(),
        in_bounds(position),
    ensures
        final(world).wf(),
        final(world).entities@ == old(world).entities@.push(wall_record(position)),
        adds_image(
            old(world).renderables@,
            final(world).renderables@,
            seq!["resources/images/wall.png"@],
        ),
{
    let tags = Tags { wall: true, immovable: true, ..no_tags() };
    let record = EntityRecord { position: Position { z: 10, ..position }, tags };
    let renderable = Renderable::new_static("resources/images/wall.png".to_string());
    world.add_entity(record, renderable);
    assert(world.renderables@.drop_last() =~= old(world).renderables@);
    assert(world.renderables@.last().paths_view() =~= seq!["resources/images/wall.png"@]);
}

/// A floor tile: no tags, drawn lowest.
pub fn create_floor(world: &mut World, position: Position)
    requires
        old(world).wf(),
        in_bounds(position),
    ensures
        final(world).wf(),
        final(world).entities@ == old(world).entities@.push(floor_record(position)),
        adds_image(
            old(world).renderables@,
            final(world).renderables@,
            seq!["resources/images/floor.png"@],
        ),
{
    let record = EntityRecord { position: Position { z: 5, ..position }, tags: no_tags() };
    let renderable = Renderable::new_static("resources/images/floor.png".to_string());
    world.add_entity(record, renderable);
    assert(world.renderables@.drop_last() =~= old(world).renderables@);
    assert(world.renderables@.last().paths_view() =~= seq!["resources/images/floor.png"@]);
}

/// A movable box of `colour`, animated over two frames.
pub fn create_box(world: &mut World, position: Position, colour: BoxColour)
    requires
        old(world).wf(),
        in_bounds(position),
    ensures
        final(world).wf(),
        final(world).entities@ == old(world).entities@.push(box_record(position, colour)),
        adds_image(
            old(world).renderables@,
            final(world).renderables@,
            box_frames(colour),
        ),
{
    let tags = Tags { box_colour: Some(colour), movable: true, ..no_tags() };
    let record = EntityRecord { position: Position { z: 10, ..position }, tags };
    let frames = match colour {
        BoxColour::Red => vec![
            "resources/images/box_red_1.png".to_string(),
            "resources/images/box_red_2.png".to_string(),
        ],
        BoxColour::Blue => vec![
            "resources/images/box_blue_1.png".to_string(),
            "resources/images/box_blue_2.png".to_string(),
        ],
    };
    world.add_entity(record, Renderable::new_animated(frames));
    assert(world.renderables@.drop_last() =~= old(world).renderables@);
    assert(world.renderables@.last().paths_view() =~= box_frames(colour));
}

/// A target spot of `colour`: not an obstacle, drawn under boxes.
pub fn create_box_spot(world: &mut World, position: Position, colour: BoxColour)
    requires
        old(world).wf(),
        in_bounds(position),
    ensures
        final(world).wf(),
        final(world).entities@ == old(world).entities@.push(box_spot_record(position, colour)),
        adds_image(
            old(world).renderables@,
            final(world).renderables@,
            seq![box_spot_image(colour)],
        ),
{
    let tags = Tags { spot_colour: Some(colour), ..no_tags() };
    let record = EntityRecord { position: Position { z: 9, ..position }, tags };
    let path = match colour {
        BoxColour::Red => "resources/images/box_spot_red.png".to_string(),
        BoxColour::Blue => "resources/images/box_spot_blue.png".to_string(),
    };
    world.add_entity(record, Renderable::new_static(path));
    assert(world.renderables@.drop_last() =~= old(world).renderables@);
    assert(world.renderables@.last().paths_view() =~= seq![box_spot_image(colour)]);
}

/// The player: movable, animated over three frames.
pub fn create_player(world: &mut World, position: Position)
    requires
        old(world).wf(),
        in_bounds(position),
    ensures
        final(world).wf(),
        final(world).entities@ == old(world).entities@.push(player_record(position)),
        adds_image(
            old(world).renderables@,
            final(world).renderables@,
            seq![
                "resources/images/player_1.png"@,
                "resources/images/player_2.png"@,
                "resources/images/player_3.png"@,
            ],
        ),
{
    let tags = Tags { player: true, movable: true, ..no_tags() };
    let record = EntityRecord { position: Position { z: 10, ..position }, tags };
    let frames = vec![
        "resources/images/player_1.png".to_string(),
        "resources/images/player_2.png".to_string(),
        "resources/images/player_3.png".to_string(),
    ];
    world.add_entity(record, Renderable::new_animated(frames));
    assert(world.renderables@.drop_last() =~= old(world).renderables@);
    assert(world.renderables@.last().paths_view() =~= seq![
                "resources/images/player_1.png"@,
                "resources/images/player_2.png"@,
                "resources/images/player_3.png"@,
            ]);
}

} // verus!
