use vstd::prelude::*;

verus! {

/// Names the entity (by its index in the component store) that moved.
#[derive(Clone, Copy, Debug, PartialEq, Eq, Structural)]
pub struct EntityMoved {
    pub id: usize,
}

/// What happened while resolving one input.
#[derive(Clone, Copy, Debug, PartialEq, Eq, Structural)]
pub enum Event {
    /// The player tried to push into something immovable.
    PlayerHitObstacle,
    EntityMoved(EntityMoved),
}

} // verus!
