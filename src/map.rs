use vstd::prelude::*;

use crate::components::{BoxColour, EntityRecord, Position};
use crate::constants::{MAP_HEIGHT, MAP_WIDTH};
use crate::entities::{
    box_record, box_spot_record, create_box, create_box_spot, create_floor, create_player,
    create_wall, floor_record, player_record, wall_record,
};
use crate::world::{count_players, World};

verus! {

/// What one token of a level grid stands for.
#[derive(Clone, Copy, Debug, PartialEq, Eq, Structural)]
pub enum Tile {
    /// `N`: nothing at all.
    Nothing,
    /// `.`
    Floor,
    /// `W`
    Wall,
    /// `P`
    Player,
    /// `RB` or `BB`: a red or a blue box.
    Box(BoxColour),
    /// `RS` or `BS`: a red or a blue spot.
    Spot(BoxColour),
}

/// Why a level grid was refused.
#[derive(Clone, Copy, Debug, PartialEq, Eq, Structural)]
pub enum MapError {
    /// More rows than `MAP_HEIGHT + 1`, or a row of more than `MAP_WIDTH + 1` tokens.
    TooLarge,
    /// A token that names no tile.
    UnknownToken,
    /// The level does not hold exactly one player.
    PlayerCount,
}

pub open spec fn spec_tile(t: Seq<char>) -> Option<Tile> {
    if t == seq!['N'] {
        Some(Tile::Nothing)
    } else if t == seq!['.'] {
        Some(Tile::Floor)
    } else if t == seq!['W'] {
        Some(Tile::Wall)
    } else if t == seq!['P'] {
        Some(Tile::Player)
    } else if t == seq!['R', 'B'] {
        Some(Tile::Box(BoxColour::Red))
    } else if t == seq!['B', 'B'] {
        Some(Tile::Box(BoxColour::Blue))
    } else if t == seq!['R', 'S'] {
        Some(Tile::Spot(BoxColour::Red))
    } else if t == seq!['B', 'S'] {
        Some(Tile::Spot(BoxColour::Blue))
    } else {
        None
    }
}

/// The entities a tile creates on `(x, y)`: every tile but `Nothing` has a
/// floor under it.
pub open spec fn tile_records(tile: Tile, x: u8, y: u8) -> Seq<EntityRecord> {
    let p = Position { x, y, z: 0 };
    match tile {
        Tile::Nothing => seq![],
        Tile::Floor => seq![floor_record(p)],
        Tile::Wall => seq![floor_record(p), wall_record(p)],
        Tile::Player => seq![floor_record(p), player_record(p)],
        Tile::Box(c) => seq![floor_record(p), box_record(p, c)],
        Tile::Spot(c) => seq![floor_record(p), box_spot_record(p, c)],
    }
}

/// The entities of row `y`, left to right.
pub open spec fn row_records(row: Seq<Seq<char>>, y: int) -> Seq<EntityRecord>
    decreases row.len(),
{
    if row.len() == 0 {
        seq![]
    } else {
        row_records(row.drop_last(), y) + match spec_tile(row.last()) {
            Some(t) => tile_records(t, (row.len() - 1) as u8, y as u8),
            None => seq![],
        }
    }
}

/// The entities of a level grid, row by row from the top.
pub open spec fn level_records(rows: Seq<Seq<Seq<char>>>) -> Seq<EntityRecord>
    decreases rows.len(),
{
    if rows.len() == 0 {
        seq![]
    } else {
        level_records(rows.drop_last()) + row_records(rows.last(), rows.len() - 1)
    }
}

pub open spec fn fits(rows: Seq<Seq<Seq<char>>>) -> bool {
    rows.len() <= MAP_HEIGHT + 1 && forall|y: int| 0 <= y < rows.len() ==> #[trigger] rows[y].len() <= MAP_WIDTH + 1
}

pub open spec fn all_known(rows: Seq<Seq<Seq<char>>>) -> bool {
    forall|y: int, x: int| 0 <= y < rows.len() && 0 <= x < rows[y].len() ==> #[trigger] spec_tile(rows[y][x]) is Some
}

/// The characters of each token of a grid.
pub open spec fn grid_view(rows: Seq<Vec<String>>) -> Seq<Seq<Seq<char>>> {
    rows.map_values(|r: Vec<String>| r@.map_values(|t: String| t@))
}

/// What loading `rows` gives: the first failing check in the order size,
/// tokens, player count; or the level's entities.
pub open spec fn spec_load(rows: Seq<Seq<Seq<char>>>) -> Result<Seq<EntityRecord>, MapError> {
    if !fits(rows) {
        Err(MapError::TooLarge)
    } else if !all_known(rows) {
        Err(MapError::UnknownToken)
    } else if count_players(level_records(rows)) != 1 {
        Err(MapError::PlayerCount)
    } else {
        Ok(level_records(rows))
    }
}

/// A level that loads holds exactly one entity carrying `Player`.
pub proof fn law_loaded_level_one_player(rows: Seq<Seq<Seq<char>>>)
    requires
        spec_load(rows) is Ok,
    ensures
        count_players(spec_load(rows)->Ok_0) == 1,
{
}

/// Reads one token.
pub fn tile_of(token: &str) -> (r: Option<Tile>)
    ensures
        r == spec_tile(token@),
{
    let n = token.unicode_len();
    if n == 1 {
        let c = token.get_char(0);
        assert(token@ =~= seq![c]);
        if c == 'N' {
            Some(Tile::Nothing)
        } else if c == '.' {
            Some(Tile::Floor)
        } else if c == 'W' {
            Some(Tile::Wall)
        } else if c == 'P' {
            Some(Tile::Player)
        } else {
            None
        }
    } else if n == 2 {
        let c0 = token.get_char(0);
        let c1 = token.get_char(1);
        assert(token@ =~= seq![c0, c1]);
        let colour = if c0 == 'R' {
            BoxColour::Red
        } else if c0 == 'B' {
            BoxColour::Blue
        } else {
            return None;
        };
        if c1 == 'B' {
            Some(Tile::Box(colour))
        } else if c1 == 'S' {
            Some(Tile::Spot(colour))
        } else {
            None
        }
    } else {
        None
    }
}

/// Adds the entities of `tile` on `(x, y)`.
pub fn place_tile(world: &mut World, tile: Tile, x: u8, y: u8)
    requires
        old(world).wf(),
        x <= MAP_WIDTH,
        y <= MAP_HEIGHT,
    ensures
        final(world).wf(),
        final(world).entities@ == old(world).entities@ + tile_records(tile, x, y),
{
    let p = Position { x, y, z: 0 };
    if tile != Tile::Nothing {
        create_floor(world, p);
    }
    match tile {
        Tile::Nothing => {},
        Tile::Floor => {},
        Tile::Wall => create_wall(world, p),
        Tile::Player => create_player(world, p),
        Tile::Box(c) => create_box(world, p, c),
        Tile::Spot(c) => create_box_spot(world, p, c),
    }
    assert(world.entities@ =~= old(world).entities@ + tile_records(tile, x, y));
}

/// Counts the entities carrying `Player`.
pub fn player_count(world: &World) -> (n: usize)
    ensures
        n == count_players(world.entities@),
{
    let ghost s = world.entities@;
    let mut n: usize = 0;
    let mut k: usize = 0;
    while k < world.entities.len()
        invariant
            s == world.entities@,
            k <= s.len(),
            n == count_players(s.subrange(0, k as int)),
            n <= k,
        decreases s.len() - k,
    {
        assert(s.subrange(0, k + 1).drop_last() =~= s.subrange(0, k as int));
        if world.entities[k].tags.player {
            n += 1;
        }
        k += 1;
    }
    assert(s.subrange(0, s.len() as int) =~= s);
    n
}

/// Builds a level from its grid of tokens, row `y` holding the tokens of
/// the cells `(0, y)`, `(1, y)`, and so on.
pub fn load_map(rows: &Vec<Vec<String>>) -> (r: Result<World, MapError>)
    ensures
        r matches Ok(w) ==> w.wf() && spec_load(grid_view(rows@)) == Ok::<Seq<EntityRecord>, MapError>(w.entities@),
        r matches Err(e) ==> spec_load(grid_view(rows@)) == Err::<Seq<EntityRecord>, MapError>(e),
{
    let ghost g = grid_view(rows@);
    if rows.len() > MAP_HEIGHT as usize + 1 {
        return Err(MapError::TooLarge);
    }
    let mut y: usize = 0;
    while y < rows.len()
        invariant
            g == grid_view(rows@),
            y <= rows@.len() <= MAP_HEIGHT + 1,
            forall|j: int| 0 <= j < y ==> #[trigger] g[j].len() <= MAP_WIDTH + 1,
        decreases rows@.len() - y,
    {
        if rows[y].len() > MAP_WIDTH as usize + 1 {
            assert(g[y as int].len() == rows@[y as int]@.len());
            return Err(MapError::TooLarge);
        }
        y += 1;
    }
    let mut world = World::new();
    let mut y: usize = 0;
    while y < rows.len()
        invariant
            g == grid_view(rows@),
            fits(g),
            y <= rows@.len(),
            world.wf(),
            world.entities@ == level_records(g.subrange(0, y as int)),
            forall|j: int, i: int| 0 <= j < y && 0 <= i < g[j].len() ==> #[trigger] spec_tile(g[j][i]) is Some,
        decreases rows@.len() - y,
    {
        let row = &rows[y];
        let ghost gr = g[y as int];
        assert(gr.len() <= MAP_WIDTH + 1);
        let ghost before = world.entities@;
        let mut x: usize = 0;
        while x < row.len()
            invariant
                g == grid_view(rows@),
                fits(g),
                gr == g[y as int],
                gr == row@.map_values(|t: String| t@),
                gr.len() <= MAP_WIDTH + 1,
                y < rows@.len() <= MAP_HEIGHT + 1,
                x <= row@.len(),
                world.wf(),
                world.entities@ == before + row_records(gr.subrange(0, x as int), y as int),
                forall|i: int| 0 <= i < x ==> #[trigger] spec_tile(gr[i]) is Some,
            decreases row@.len() - x,
        {
            assert(gr.subrange(0, x + 1).drop_last() =~= gr.subrange(0, x as int));
            assert(gr[x as int] == row@[x as int]@);
            match tile_of(row[x].as_str()) {
                Some(t) => {
                    place_tile(&mut world, t, x as u8, y as u8);
                    assert(world.entities@ =~= before + row_records(gr.subrange(0, x + 1), y as int));
                },
                None => {
                    assert(spec_tile(g[y as int][x as int]) is None);
                    assert(!all_known(g));
                    return Err(MapError::UnknownToken);
                },
            }
            x += 1;
        }
        assert(gr.subrange(0, gr.len() as int) =~= gr);
        assert(g.subrange(0, y + 1).drop_last() =~= g.subrange(0, y as int));
        y += 1;
    }
    assert(g.subrange(0, g.len() as int) =~= g);
    if player_count(&world) != 1 {
        return Err(MapError::PlayerCount);
    }
    Ok(world)
}

} // verus!
