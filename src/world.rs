use vstd::prelude::*;

use crate::components::{EntityRecord, Position, Renderable};
use crate::constants::{MAP_HEIGHT, MAP_WIDTH};

verus! {

/// The component store. Entity `i` is row `i` of both tables: its position
/// and tags in `entities`, the images it is drawn with in `renderables`.
pub struct World {
    pub entities: Vec<EntityRecord>,
    pub renderables: Vec<Renderable>,
}

pub open spec fn in_bounds(p: Position) -> bool {
    p.x <= MAP_WIDTH && p.y <= MAP_HEIGHT
}

/// The store's invariant on each row.
pub open spec fn record_ok(r: EntityRecord) -> bool {
    &&& in_bounds(r.position)
    &&& !(r.tags.movable && r.tags.immovable)
    &&& (r.tags.player ==> r.tags.movable)
}

/// Whether `p` sits on the grid cell `(x, y)`; the layer does not count.
pub open spec fn on_cell(p: Position, x: int, y: int) -> bool {
    p.x == x && p.y == y
}

pub open spec fn movable_at(s: Seq<EntityRecord>, i: int, x: int, y: int) -> bool {
    0 <= i < s.len() && s[i].tags.movable && on_cell(s[i].position, x, y)
}

pub open spec fn immovable_at(s: Seq<EntityRecord>, i: int, x: int, y: int) -> bool {
    0 <= i < s.len() && s[i].tags.immovable && on_cell(s[i].position, x, y)
}

/// `i` is the lowest-numbered movable entity on `(x, y)`: the one a push
/// takes along when several share a cell.
pub open spec fn first_movable_at(s: Seq<EntityRecord>, i: int, x: int, y: int) -> bool {
    movable_at(s, i, x, y) && forall|j: int| 0 <= j < i ==> !movable_at(s, j, x, y)
}

pub open spec fn has_movable_at(s: Seq<EntityRecord>, x: int, y: int) -> bool {
    exists|i: int| movable_at(s, i, x, y)
}

pub open spec fn has_immovable_at(s: Seq<EntityRecord>, x: int, y: int) -> bool {
    exists|i: int| immovable_at(s, i, x, y)
}

/// `p` is the lowest-numbered entity carrying `Player`.
pub open spec fn first_player(s: Seq<EntityRecord>, p: int) -> bool {
    0 <= p < s.len() && s[p].tags.player && forall|j: int| 0 <= j < p ==> !s[j].tags.player
}

pub open spec fn has_player(s: Seq<EntityRecord>) -> bool {
    exists|p: int| 0 <= p < s.len() && s[p].tags.player
}

/// The number of entities carrying `Player`.
pub open spec fn count_players(s: Seq<EntityRecord>) -> nat
    decreases s.len(),
{
    if s.len() == 0 {
        0
    } else {
        count_players(s.drop_last()) + if s.last().tags.player {
            1nat
        } else {
            0nat
        }
    }
}

/// Two stores that differ at most in where entities stand.
pub open spec fn same_tags(a: Seq<EntityRecord>, b: Seq<EntityRecord>) -> bool {
    a.len() == b.len() && forall|i: int| 0 <= i < a.len() ==> a[i].tags == b[i].tags
}

/// Stores with the same tags row by row have the same number of players.
pub proof fn lemma_same_tags_count_players(a: Seq<EntityRecord>, b: Seq<EntityRecord>)
    requires
        same_tags(a, b),
    ensures
        count_players(a) == count_players(b),
    decreases a.len(),
{
    if a.len() > 0 {
        assert(same_tags(a.drop_last(), b.drop_last()));
        lemma_same_tags_count_players(a.drop_last(), b.drop_last());
    }
}

impl World {
    /// Every row keeps the store's invariant, and the two tables agree in length.
    pub open spec fn wf(&self) -> bool {
        &&& self.renderables@.len() == self.entities@.len()
        &&& forall|i: int| 0 <= i < self.entities@.len() ==> record_ok(#[trigger] self.entities@[i])
    }

    pub fn new() -> (r: World)
        ensures
            r.entities@.len() == 0,
            r.renderables@.len() == 0,
            r.wf(),
    {
        World { entities: Vec::new(), renderables: Vec::new() }
    }

    /// Adds an entity and returns its id.
    pub fn add_entity(&mut self, record: EntityRecord, renderable: Renderable) -> (id: usize)
        requires
            old(self).wf(),
            record_ok(record),
        ensures
            final(self).wf(),
            id == old(self).entities@.len(),
            final(self).entities@ == old(self).entities@.push(record),
            final(self).renderables@ == old(self).renderables@.push(renderable),
    {
        let id = self.entities.len();
        self.entities.push(record);
        self.renderables.push(renderable);
        id
    }

    /// The lowest-numbered entity carrying `Player`, if any.
    pub fn find_player(&self) -> (r: Option<usize>)
        ensures
            r matches Some(p) ==> first_player(self.entities@, p as int),
            r is None ==> !has_player(self.entities@),
    {
        let mut i: usize = 0;
        while i < self.entities.len()
            invariant
                i <= self.entities@.len(),
                forall|j: int| 0 <= j < i ==> !self.entities@[j].tags.player,
            decreases self.entities@.len() - i,
        {
            if self.entities[i].tags.player {
                return Some(i);
            }
            i += 1;
        }
        None
    }

    /// The lowest-numbered movable entity on `(x, y)`, if any.
    pub fn movable_at(&self, x: u8, y: u8) -> (r: Option<usize>)
        ensures
            r matches Some(i) ==> first_movable_at(self.entities@, i as int, x as int, y as int),
            r is None ==> !has_movable_at(self.entities@, x as int, y as int),
    {
        let mut i: usize = 0;
        while i < self.entities.len()
            invariant
                i <= self.entities@.len(),
                forall|j: int| 0 <= j < i ==> !movable_at(self.entities@, j, x as int, y as int),
            decreases self.entities@.len() - i,
        {
            let r = self.entities[i];
            if r.tags.movable && r.position.x == x && r.position.y == y {
                return Some(i);
            }
            i += 1;
        }
        None
    }

    /// Whether some immovable entity stands on `(x, y)`.
    pub fn immovable_at(&self, x: u8, y: u8) -> (r: bool)
        ensures
            r == has_immovable_at(self.entities@, x as int, y as int),
    {
        let mut i: usize = 0;
        while i < self.entities.len()
            invariant
                i <= self.entities@.len(),
                forall|j: int| 0 <= j < i ==> !immovable_at(self.entities@, j, x as int, y as int),
            decreases self.entities@.len() - i,
        {
            let r = self.entities[i];
            if r.tags.immovable && r.position.x == x && r.position.y == y {
                assert(immovable_at(self.entities@, i as int, x as int, y as int));
                return true;
            }
            i += 1;
        }
        false
    }
}

} // verus!
