use vstd::prelude::*;

use crate::components::{Direction, EntityRecord, Position};
use crate::constants::{MAP_HEIGHT, MAP_WIDTH};
use crate::events::{EntityMoved, Event};
use crate::resources::{EventQueue, Gameplay};
use crate::world::{
    first_movable_at, first_player, has_immovable_at, has_movable_at, has_player, movable_at,
    on_cell, record_ok, World,
};

verus! {

/// How many cells a push in direction `d` scans, starting at `from` itself
/// and ending at the grid edge inclusive.
pub open spec fn scan_cells(d: Direction, from: Position) -> int {
    match d {
        Direction::Up => from.y + 1,
        Direction::Down => if from.y <= MAP_HEIGHT {
            MAP_HEIGHT - from.y + 1
        } else {
            0
        },
        Direction::Left => from.x + 1,
        Direction::Right => if from.x <= MAP_WIDTH {
            MAP_WIDTH - from.x + 1
        } else {
            0
        },
    }
}

/// The x coordinate of the cell `k` steps from `from` in direction `d`.
pub open spec fn cell_x(d: Direction, from: Position, k: int) -> int {
    match d {
        Direction::Left => from.x - k,
        Direction::Right => from.x + k,
        _ => from.x as int,
    }
}

/// The y coordinate of the cell `k` steps from `from` in direction `d`.
pub open spec fn cell_y(d: Direction, from: Position, k: int) -> int {
    match d {
        Direction::Up => from.y - k,
        Direction::Down => from.y + k,
        _ => from.y as int,
    }
}

/// How many steps from `from` in direction `d` the cell of `p` lies, or -1
/// where `p` is not on that ray.
pub open spec fn steps(d: Direction, from: Position, p: Position) -> int {
    match d {
        Direction::Up => if p.x == from.x && p.y <= from.y {
            from.y - p.y
        } else {
            -1
        },
        Direction::Down => if p.x == from.x && p.y >= from.y {
            p.y - from.y
        } else {
            -1
        },
        Direction::Left => if p.y == from.y && p.x <= from.x {
            from.x - p.x
        } else {
            -1
        },
        Direction::Right => if p.y == from.y && p.x >= from.x {
            p.x - from.x
        } else {
            -1
        },
    }
}

/// The scan from step `k` on: the first scanned cell that holds no movable
/// entity, or `None` when every cell up to the edge holds one.
pub open spec fn gap_from(s: Seq<EntityRecord>, d: Direction, from: Position, k: int) -> Option<int>
    decreases scan_cells(d, from) - k,
{
    if 0 <= k < scan_cells(d, from) {
        if has_movable_at(s, cell_x(d, from, k), cell_y(d, from, k)) {
            gap_from(s, d, from, k + 1)
        } else {
            Some(k)
        }
    } else {
        None
    }
}

/// `p` one cell further in direction `d`.
pub open spec fn shifted(d: Direction, p: Position) -> Position {
    match d {
        Direction::Up => Position { x: p.x, y: (p.y - 1) as u8, z: p.z },
        Direction::Down => Position { x: p.x, y: (p.y + 1) as u8, z: p.z },
        Direction::Left => Position { x: (p.x - 1) as u8, y: p.y, z: p.z },
        Direction::Right => Position { x: (p.x + 1) as u8, y: p.y, z: p.z },
    }
}

/// Entity `i` is among the first `g` links of the chain that a push from
/// `from` in direction `d` takes along.
pub open spec fn in_chain(s: Seq<EntityRecord>, d: Direction, from: Position, g: int, i: int) -> bool {
    &&& 0 <= steps(d, from, s[i].position) < g
    &&& first_movable_at(s, i, s[i].position.x as int, s[i].position.y as int)
}

/// The entity taken along from the cell `k` steps ahead.
pub open spec fn mover(s: Seq<EntityRecord>, d: Direction, from: Position, k: int) -> int {
    choose|i: int| first_movable_at(s, i, cell_x(d, from, k), cell_y(d, from, k))
}

/// The store after the first `g` links of the chain moved one cell.
pub open spec fn pushed(s: Seq<EntityRecord>, d: Direction, from: Position, g: int) -> Seq<EntityRecord> {
    Seq::new(
        s.len(),
        |i: int|
            if in_chain(s, d, from, g, i) {
                EntityRecord { position: shifted(d, s[i].position), tags: s[i].tags }
            } else {
                s[i]
            },
    )
}

/// One `EntityMoved` per link of the chain, nearest the player first.
pub open spec fn moved_events(s: Seq<EntityRecord>, d: Direction, from: Position, g: int) -> Seq<Event> {
    Seq::new(g as nat, |k: int| Event::EntityMoved(EntityMoved { id: mover(s, d, from, k) as usize }))
}

/// Where the player stands: the lowest-numbered entity carrying `Player`.
pub open spec fn player_position(s: Seq<EntityRecord>) -> Position {
    s[choose|p: int| first_player(s, p)].position
}

/// Where the scan for a push in direction `d` stops, if it does.
pub open spec fn press_gap(s: Seq<EntityRecord>, d: Direction) -> Option<int> {
    if has_player(s) {
        gap_from(s, d, player_position(s), 0)
    } else {
        None
    }
}

/// The scan stopped at an immovable entity: nothing moves.
pub open spec fn press_blocked(s: Seq<EntityRecord>, d: Direction) -> bool {
    match press_gap(s, d) {
        Some(g) => has_immovable_at(s, cell_x(d, player_position(s), g), cell_y(d, player_position(s), g)),
        None => false,
    }
}

/// The number of entities a push moves: the cells scanned before the free one.
pub open spec fn press_chain(s: Seq<EntityRecord>, d: Direction) -> int {
    match press_gap(s, d) {
        Some(g) => if press_blocked(s, d) {
            0
        } else {
            g
        },
        None => 0,
    }
}

/// The store after a push in direction `d`.
pub open spec fn press_entities(s: Seq<EntityRecord>, d: Direction) -> Seq<EntityRecord> {
    pushed(s, d, player_position(s), press_chain(s, d))
}

/// The events a push in direction `d` produces.
pub open spec fn press_events(s: Seq<EntityRecord>, d: Direction) -> Seq<Event> {
    if press_blocked(s, d) {
        seq![Event::PlayerHitObstacle]
    } else {
        moved_events(s, d, player_position(s), press_chain(s, d))
    }
}

/// What a scan found.
pub enum PushPlan {
    /// The entities to move, nearest the player first; the cell after them is free.
    Moves(Vec<usize>),
    /// The chain runs into an immovable entity.
    Blocked,
    /// The chain reaches the grid edge.
    Exhausted,
}

proof fn lemma_first_movable_unique(s: Seq<EntityRecord>, i: int, j: int, x: int, y: int)
    requires
        first_movable_at(s, i, x, y),
        first_movable_at(s, j, x, y),
    ensures
        i == j,
{
    if i < j {
        assert(movable_at(s, i, x, y));
    } else if j < i {
        assert(movable_at(s, j, x, y));
    }
}

proof fn lemma_first_player_unique(s: Seq<EntityRecord>, p: int, q: int)
    requires
        first_player(s, p),
        first_player(s, q),
    ensures
        p == q,
{
}

/// The scan stops, if at all, at or after where it started and before the edge.
pub proof fn lemma_gap_range(s: Seq<EntityRecord>, d: Direction, from: Position, k: int, g: int)
    requires
        gap_from(s, d, from, k) == Some(g),
    ensures
        k <= g < scan_cells(d, from),
    decreases scan_cells(d, from) - k,
{
    if 0 <= k < scan_cells(d, from) && has_movable_at(s, cell_x(d, from, k), cell_y(d, from, k)) {
        lemma_gap_range(s, d, from, k + 1, g);
    }
}

proof fn lemma_gap_after_run(s: Seq<EntityRecord>, d: Direction, from: Position, k: int, n: int)
    requires
        0 <= k <= n < scan_cells(d, from),
        forall|j: int| k <= j < n ==> has_movable_at(s, cell_x(d, from, j), cell_y(d, from, j)),
        !has_movable_at(s, cell_x(d, from, n), cell_y(d, from, n)),
    ensures
        gap_from(s, d, from, k) == Some(n),
    decreases n - k,
{
    if k < n {
        lemma_gap_after_run(s, d, from, k + 1, n);
    }
}

/// Where the player is the only-or-first movable entity on its cell, and
/// the `n` cells after it each hold a movable entity, the scan passes them
/// all and stops at the cell after.
proof fn lemma_press_gap(s: Seq<EntityRecord>, d: Direction, p: int, n: int)
    requires
        first_player(s, p),
        record_ok(s[p]),
        0 <= n,
        n + 1 < scan_cells(d, s[p].position),
        forall|k: int|
            1 <= k <= n ==> has_movable_at(
                s,
                #[trigger] cell_x(d, s[p].position, k),
                cell_y(d, s[p].position, k),
            ),
        !has_movable_at(s, cell_x(d, s[p].position, n + 1), cell_y(d, s[p].position, n + 1)),
    ensures
        player_position(s) == s[p].position,
        press_gap(s, d) == Some(n + 1),
{
    let q = choose|q: int| first_player(s, q);
    lemma_first_player_unique(s, p, q);
    let from = s[p].position;
    assert(movable_at(s, p, cell_x(d, from, 0), cell_y(d, from, 0)));
    assert forall|j: int| 0 <= j < n + 1 implies has_movable_at(s, cell_x(d, from, j), cell_y(d, from, j)) by {
        if j == 0 {
            assert(movable_at(s, p, cell_x(d, from, 0), cell_y(d, from, 0)));
        } else {
            assert(has_movable_at(s, cell_x(d, from, j), cell_y(d, from, j)));
        }
    }
    lemma_gap_after_run(s, d, from, 0, n + 1);
}

/// Pushing into an obstacle: with a movable entity (a box) right ahead of
/// the player and an immovable one (a wall) behind it, nothing moves and the
/// only event is one `PlayerHitObstacle`.
pub proof fn law_push_into_wall(s: Seq<EntityRecord>, d: Direction, p: int)
    requires
        first_player(s, p),
        record_ok(s[p]),
        2 < scan_cells(d, s[p].position),
        has_movable_at(s, cell_x(d, s[p].position, 1), cell_y(d, s[p].position, 1)),
        !has_movable_at(s, cell_x(d, s[p].position, 2), cell_y(d, s[p].position, 2)),
        has_immovable_at(s, cell_x(d, s[p].position, 2), cell_y(d, s[p].position, 2)),
    ensures
        press_entities(s, d) == s,
        press_events(s, d) == seq![Event::PlayerHitObstacle],
        press_chain(s, d) == 0,
{
    lemma_press_gap(s, d, p, 1);
    assert(press_entities(s, d) =~= s);
}

/// A chain push: with the player first on its cell, `n` movable entities
/// (boxes) on the `n` cells ahead, and a cell after them with nothing movable
/// and nothing immovable, the player and the `n` boxes each move one cell in
/// the push direction, everything else stays, and the events are `n + 1`
/// `EntityMoved`, from the player outward. The count of moves rises by one.
pub proof fn law_chain_push(s: Seq<EntityRecord>, d: Direction, p: int, n: int)
    requires
        first_player(s, p),
        record_ok(s[p]),
        first_movable_at(s, p, s[p].position.x as int, s[p].position.y as int),
        0 <= n,
        n + 1 < scan_cells(d, s[p].position),
        forall|k: int|
            1 <= k <= n ==> has_movable_at(
                s,
                #[trigger] cell_x(d, s[p].position, k),
                cell_y(d, s[p].position, k),
            ),
        !has_movable_at(s, cell_x(d, s[p].position, n + 1), cell_y(d, s[p].position, n + 1)),
        !has_immovable_at(s, cell_x(d, s[p].position, n + 1), cell_y(d, s[p].position, n + 1)),
    ensures
        press_chain(s, d) == n + 1,
        press_events(s, d).len() == n + 1,
        press_events(s, d)[0] == Event::EntityMoved(EntityMoved { id: p as usize }),
        forall|k: int|
            0 <= k <= n ==> {
                let m = #[trigger] mover(s, d, s[p].position, k);
                &&& first_movable_at(s, m, cell_x(d, s[p].position, k), cell_y(d, s[p].position, k))
                &&& press_events(s, d)[k] == Event::EntityMoved(EntityMoved { id: m as usize })
                &&& press_entities(s, d)[m] == EntityRecord {
                    position: shifted(d, s[m].position),
                    tags: s[m].tags,
                }
            },
        forall|i: int|
            0 <= i < s.len() && !(0 <= steps(d, s[p].position, s[i].position) <= n && first_movable_at(
                s,
                i,
                s[i].position.x as int,
                s[i].position.y as int,
            )) ==> #[trigger] press_entities(s, d)[i] == s[i],
{
    let from = s[p].position;
    lemma_press_gap(s, d, p, n);
    assert forall|k: int| 0 <= k <= n implies first_movable_at(
        s,
        #[trigger] mover(s, d, from, k),
        cell_x(d, from, k),
        cell_y(d, from, k),
    ) by {
        if k == 0 {
            assert(first_movable_at(s, p, cell_x(d, from, 0), cell_y(d, from, 0)));
        } else {
            assert(has_movable_at(s, cell_x(d, from, k), cell_y(d, from, k)));
            let w = choose|w: int| movable_at(s, w, cell_x(d, from, k), cell_y(d, from, k));
            first_movable_exists(s, w, cell_x(d, from, k), cell_y(d, from, k));
        }
    }
    assert(mover(s, d, from, 0) == p) by {
        lemma_first_movable_unique(s, mover(s, d, from, 0), p, cell_x(d, from, 0), cell_y(d, from, 0));
    }
}

/// Pushing a single box: with the player first on its cell, a box ahead of
/// it and a free cell after the box, the player and the box each move one
/// cell in the push direction, everything else stays, and the events are
/// `EntityMoved` for the player, then for the box.
pub proof fn law_single_push(s: Seq<EntityRecord>, d: Direction, p: int, b: int)
    requires
        first_player(s, p),
        record_ok(s[p]),
        first_movable_at(s, p, s[p].position.x as int, s[p].position.y as int),
        2 < scan_cells(d, s[p].position),
        first_movable_at(s, b, cell_x(d, s[p].position, 1), cell_y(d, s[p].position, 1)),
        !has_movable_at(s, cell_x(d, s[p].position, 2), cell_y(d, s[p].position, 2)),
        !has_immovable_at(s, cell_x(d, s[p].position, 2), cell_y(d, s[p].position, 2)),
    ensures
        press_chain(s, d) == 2,
        press_entities(s, d)[p].position == shifted(d, s[p].position),
        press_entities(s, d)[b].position == shifted(d, s[b].position),
        forall|i: int| 0 <= i < s.len() && i != p && i != b ==> #[trigger] press_entities(s, d)[i] == s[i],
        press_events(s, d) == seq![
            Event::EntityMoved(EntityMoved { id: p as usize }),
            Event::EntityMoved(EntityMoved { id: b as usize }),
        ],
{
    let from = s[p].position;
    assert(movable_at(s, b, cell_x(d, from, 1), cell_y(d, from, 1)));
    law_chain_push(s, d, p, 1);
    let m1 = mover(s, d, from, 1);
    assert(first_movable_at(s, m1, cell_x(d, from, 1), cell_y(d, from, 1)));
    lemma_first_movable_unique(s, m1, b, cell_x(d, from, 1), cell_y(d, from, 1));
    assert forall|i: int| 0 <= i < s.len() && i != p && i != b implies #[trigger] press_entities(s, d)[i] == s[i] by {
        let k = steps(d, from, s[i].position);
        if 0 <= k <= 1 && first_movable_at(s, i, s[i].position.x as int, s[i].position.y as int) {
            if k == 0 {
                lemma_first_movable_unique(s, i, p, cell_x(d, from, 0), cell_y(d, from, 0));
            } else {
                lemma_first_movable_unique(s, i, b, cell_x(d, from, 1), cell_y(d, from, 1));
            }
        }
    }
    assert(press_events(s, d) =~= seq![
        Event::EntityMoved(EntityMoved { id: p as usize }),
        Event::EntityMoved(EntityMoved { id: b as usize }),
    ]);
}

/// A push changes the store exactly when it moves a chain, that is when the
/// move count rises.
pub proof fn law_moves_iff_changed(s: Seq<EntityRecord>, d: Direction)
    ensures
        press_entities(s, d) != s <==> press_chain(s, d) > 0,
{
    let from = player_position(s);
    let g = press_chain(s, d);
    if g > 0 {
        let gap = press_gap(s, d)->Some_0;
        lemma_gap_range(s, d, from, 0, gap);
        assert(has_movable_at(s, cell_x(d, from, 0), cell_y(d, from, 0)));
        let w = choose|w: int| movable_at(s, w, cell_x(d, from, 0), cell_y(d, from, 0));
        first_movable_exists(s, w, cell_x(d, from, 0), cell_y(d, from, 0));
        let m = choose|m: int| first_movable_at(s, m, cell_x(d, from, 0), cell_y(d, from, 0));
        assert(in_chain(s, d, from, g, m));
        assert(press_entities(s, d)[m].position != s[m].position);
    } else {
        assert(press_entities(s, d) =~= s);
    }
}

proof fn first_movable_exists(s: Seq<EntityRecord>, w: int, x: int, y: int)
    requires
        movable_at(s, w, x, y),
    ensures
        exists|i: int| first_movable_at(s, i, x, y),
    decreases w,
{
    if exists|j: int| 0 <= j < w && movable_at(s, j, x, y) {
        let j = choose|j: int| 0 <= j < w && movable_at(s, j, x, y);
        first_movable_exists(s, j, x, y);
    } else {
        assert(first_movable_at(s, w, x, y));
    }
}

/// The number of cells a push in direction `d` from `from` scans.
fn scan_len(d: Direction, from: Position) -> (n: usize)
    ensures
        n == scan_cells(d, from),
{
    match d {
        Direction::Up => from.y as usize + 1,
        Direction::Down => if from.y <= MAP_HEIGHT {
            (MAP_HEIGHT - from.y) as usize + 1
        } else {
            0
        },
        Direction::Left => from.x as usize + 1,
        Direction::Right => if from.x <= MAP_WIDTH {
            (MAP_WIDTH - from.x) as usize + 1
        } else {
            0
        },
    }
}

/// The cell `k` steps from `from` in direction `d`.
fn cell_at(d: Direction, from: Position, k: usize) -> (c: (u8, u8))
    requires
        k < scan_cells(d, from),
    ensures
        c.0 == cell_x(d, from, k as int),
        c.1 == cell_y(d, from, k as int),
{
    match d {
        Direction::Up => (from.x, from.y - k as u8),
        Direction::Down => (from.x, from.y + k as u8),
        Direction::Left => (from.x - k as u8, from.y),
        Direction::Right => (from.x + k as u8, from.y),
    }
}

/// Scans from `from` in direction `d`: collects the contiguous movable
/// entities, then looks at the first cell without one.
pub fn plan_push(world: &World, from: Position, d: Direction) -> (r: PushPlan)
    ensures
        r is Exhausted <==> gap_from(world.entities@, d, from, 0) is None,
        r is Blocked <==> (gap_from(world.entities@, d, from, 0) matches Some(g) && has_immovable_at(
            world.entities@,
            cell_x(d, from, g),
            cell_y(d, from, g),
        )),
        r matches PushPlan::Moves(v) ==> {
            &&& gap_from(world.entities@, d, from, 0) == Some(v@.len() as int)
            &&& !has_immovable_at(world.entities@, cell_x(d, from, v@.len() as int), cell_y(d, from, v@.len() as int))
            &&& forall|k: int|
                0 <= k < v@.len() ==> first_movable_at(
                    world.entities@,
                    #[trigger] v@[k] as int,
                    cell_x(d, from, k),
                    cell_y(d, from, k),
                )
        },
{
    let ghost s = world.entities@;
    let n = scan_len(d, from);
    let mut to_move: Vec<usize> = Vec::new();
    let mut k: usize = 0;
    while k < n
        invariant
            k <= n,
            n == scan_cells(d, from),
            to_move@.len() == k,
            forall|j: int|
                0 <= j < k ==> first_movable_at(s, #[trigger] to_move@[j] as int, cell_x(d, from, j), cell_y(d, from, j)),
            gap_from(s, d, from, 0) == gap_from(s, d, from, k as int),
            s == world.entities@,
        decreases n - k,
    {
        let (cx, cy) = cell_at(d, from, k);
        match world.movable_at(cx, cy) {
            Some(i) => {
                assert(movable_at(s, i as int, cx as int, cy as int));
                assert(gap_from(s, d, from, k as int) == gap_from(s, d, from, k + 1));
                to_move.push(i);
                k += 1;
            },
            None => {
                assert(gap_from(s, d, from, k as int) == Some(k as int));
                if world.immovable_at(cx, cy) {
                    return PushPlan::Blocked;
                } else {
                    return PushPlan::Moves(to_move);
                }
            },
        }
    }
    PushPlan::Exhausted
}

/// `p` moved one cell in direction `d`; the caller knows the target cell
/// exists.
fn shift(d: Direction, p: Position) -> (r: Position)
    requires
        d == Direction::Up ==> p.y >= 1,
        d == Direction::Down ==> p.y < MAP_HEIGHT,
        d == Direction::Left ==> p.x >= 1,
        d == Direction::Right ==> p.x < MAP_WIDTH,
    ensures
        r == shifted(d, p),
{
    match d {
        Direction::Up => Position { x: p.x, y: p.y - 1, z: p.z },
        Direction::Down => Position { x: p.x, y: p.y + 1, z: p.z },
        Direction::Left => Position { x: p.x - 1, y: p.y, z: p.z },
        Direction::Right => Position { x: p.x + 1, y: p.y, z: p.z },
    }
}

/// The directions pressed during one tick.
#[derive(Clone, Copy, Debug, PartialEq, Eq, Structural)]
pub struct PressedKeys {
    pub up: bool,
    pub down: bool,
    pub left: bool,
    pub right: bool,
}

/// The direction a tick resolves: the first pressed in the order up, down,
/// left, right.
pub open spec fn first_pressed(keys: PressedKeys) -> Option<Direction> {
    if keys.up {
        Some(Direction::Up)
    } else if keys.down {
        Some(Direction::Down)
    } else if keys.left {
        Some(Direction::Left)
    } else if keys.right {
        Some(Direction::Right)
    } else {
        None
    }
}

/// Resolves pushes from player input.
pub struct InputSystem {}

impl InputSystem {
    /// Moves the chain in `to_move` one cell in direction `d` and reports
    /// each moved entity, nearest the player first.
    fn apply_moves(
        world: &mut World,
        queue: &mut EventQueue,
        from: Position,
        d: Direction,
        to_move: &Vec<usize>,
    )
        requires
            old(world).wf(),
            gap_from(old(world).entities@, d, from, 0) == Some(to_move@.len() as int),
            forall|k: int|
                0 <= k < to_move@.len() ==> first_movable_at(
                    old(world).entities@,
                    #[trigger] to_move@[k] as int,
                    cell_x(d, from, k),
                    cell_y(d, from, k),
                ),
        ensures
            final(world).wf(),
            final(world).renderables@ == old(world).renderables@,
            final(world).entities@ == pushed(old(world).entities@, d, from, to_move@.len() as int),
            final(queue).events@ == old(queue).events@ + moved_events(
                old(world).entities@,
                d,
                from,
                to_move@.len() as int,
            ),
    {
        let ghost s = world.entities@;
        let ghost e0 = queue.events@;
        let ghost g = to_move@.len() as int;
        proof {
            lemma_gap_range(s, d, from, 0, g);
        }
        let mut j: usize = 0;
        while j < to_move.len()
            invariant
                j <= to_move@.len(),
                g == to_move@.len(),
                g < scan_cells(d, from),
                world.wf(),
                world.renderables@ == old(world).renderables@,
                s == old(world).entities@,
                world.entities@.len() == s.len(),
                forall|k: int|
                    0 <= k < to_move@.len() ==> first_movable_at(
                        s,
                        #[trigger] to_move@[k] as int,
                        cell_x(d, from, k),
                        cell_y(d, from, k),
                    ),
                forall|i: int|
                    0 <= i < s.len() ==> #[trigger] world.entities@[i] == (if in_chain(s, d, from, j as int, i) {
                        EntityRecord { position: shifted(d, s[i].position), tags: s[i].tags }
                    } else {
                        s[i]
                    }),
                queue.events@ == e0 + moved_events(s, d, from, j as int),
            decreases to_move@.len() - j,
        {
            let idx = to_move[j];
            assert(first_movable_at(s, idx as int, cell_x(d, from, j as int), cell_y(d, from, j as int)));
            assert(!in_chain(s, d, from, j as int, idx as int));
            let mut rec = world.entities[idx];
            assert(rec == s[idx as int]);
            rec.position = shift(d, rec.position);
            proof {
                assert forall|i: int| 0 <= i < s.len() implies in_chain(s, d, from, j + 1, i) == (in_chain(s, d, from, j as int, i) || i == idx) by {
                    if in_chain(s, d, from, j + 1, i) && !in_chain(s, d, from, j as int, i) {
                        lemma_first_movable_unique(s, i, idx as int, cell_x(d, from, j as int), cell_y(d, from, j as int));
                    }
                }
                assert(mover(s, d, from, j as int) == idx) by {
                    let m = mover(s, d, from, j as int);
                    lemma_first_movable_unique(s, m, idx as int, cell_x(d, from, j as int), cell_y(d, from, j as int));
                }
            }
            world.entities.set(idx, rec);
            queue.events.push(Event::EntityMoved(EntityMoved { id: idx }));
            proof {
                assert(moved_events(s, d, from, j + 1) =~= moved_events(s, d, from, j as int).push(
                    Event::EntityMoved(EntityMoved { id: idx }),
                ));
                assert(record_ok(world.entities@[idx as int]));
            }
            j += 1;
        }
        assert(world.entities@ =~= pushed(s, d, from, g));
    }

    /// Handles this tick's input. Only the first pressed direction, in the
    /// order up, down, left, right, is resolved, so one tick moves at most once.
    pub fn run(
        &mut self,
        world: &mut World,
        gameplay: &mut Gameplay,
        queue: &mut EventQueue,
        keys: PressedKeys,
    )
        requires
            old(world).wf(),
            old(gameplay).moves_count < u32::MAX,
        ensures
            final(world).wf(),
            final(world).renderables@ == old(world).renderables@,
            final(gameplay).state == old(gameplay).state,
            first_pressed(keys) is None ==> {
                &&& final(world).entities@ == old(world).entities@
                &&& final(queue).events@ == old(queue).events@
                &&& final(gameplay).moves_count == old(gameplay).moves_count
            },
            first_pressed(keys) matches Some(d) ==> {
                &&& final(world).entities@ == press_entities(old(world).entities@, d)
                &&& final(queue).events@ == old(queue).events@ + press_events(old(world).entities@, d)
                &&& final(gameplay).moves_count == old(gameplay).moves_count + if press_chain(
                    old(world).entities@,
                    d,
                ) > 0 {
                    1int
                } else {
                    0int
                }
            },
    {
        if keys.up {
            self.handle_button_press(world, gameplay, queue, Direction::Up);
        } else if keys.down {
            self.handle_button_press(world, gameplay, queue, Direction::Down);
        } else if keys.left {
            self.handle_button_press(world, gameplay, queue, Direction::Left);
        } else if keys.right {
            self.handle_button_press(world, gameplay, queue, Direction::Right);
        }
    }

    /// Handles one pressed direction: finds the player, scans ahead, and
    /// either moves the chain (counting one move) or reports the obstacle.
    pub fn handle_button_press(
        &mut self,
        world: &mut World,
        gameplay: &mut Gameplay,
        queue: &mut EventQueue,
        key: Direction,
    )
        requires
            old(world).wf(),
            old(gameplay).moves_count < u32::MAX,
        ensures
            final(world).wf(),
            final(world).renderables@ == old(world).renderables@,
            final(world).entities@ == press_entities(old(world).entities@, key),
            final(queue).events@ == old(queue).events@ + press_events(old(world).entities@, key),
            final(gameplay).state == old(gameplay).state,
            final(gameplay).moves_count == old(gameplay).moves_count + if press_chain(
                old(world).entities@,
                key,
            ) > 0 {
                1int
            } else {
                0int
            },
    {
        let ghost s = world.entities@;
        let p = match world.find_player() {
            Some(p) => p,
            None => {
                assert(world.entities@ =~= press_entities(s, key));
                assert(queue.events@ =~= old(queue).events@ + press_events(s, key));
                return;
            },
        };
        proof {
            let q = choose|q: int| first_player(s, q);
            lemma_first_player_unique(s, p as int, q);
        }
        let from = world.entities[p].position;
        let plan = plan_push(world, from, key);
        match plan {
            PushPlan::Exhausted => {
                assert(world.entities@ =~= press_entities(s, key));
                assert(queue.events@ =~= old(queue).events@ + press_events(s, key));
            },
            PushPlan::Blocked => {
                assert(world.entities@ =~= press_entities(s, key));
                queue.events.push(Event::PlayerHitObstacle);
            },
            PushPlan::Moves(to_move) => {
                if to_move.len() > 0 {
                    gameplay.moves_count = gameplay.moves_count + 1;
                }
                Self::apply_moves(world, queue, from, key, &to_move);
            },
        }
    }
}

} // verus!
