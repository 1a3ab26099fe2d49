use vstd::prelude::*;

use crate::components::EntityRecord;
use crate::events::Event;
use crate::resources::{EventQueue, Gameplay, GameplayState};
use crate::systems::event_system::{has_entity_moved, next_state, EventSystem};
use crate::systems::input_system::{
    first_pressed, law_moves_iff_changed, lemma_gap_range, moved_events, player_position, press_blocked, press_chain, press_gap, press_entities,
    press_events, pushed, InputSystem, PressedKeys,
};
use crate::world::{count_players, lemma_same_tags_count_players, same_tags, World};

verus! {

/// The store after one tick with `keys` pressed.
pub open spec fn tick_entities(s: Seq<EntityRecord>, keys: PressedKeys) -> Seq<EntityRecord> {
    match first_pressed(keys) {
        Some(d) => press_entities(s, d),
        None => s,
    }
}

/// The events of one tick with `keys` pressed, in the order they arose.
pub open spec fn tick_events(s: Seq<EntityRecord>, keys: PressedKeys) -> Seq<Event> {
    match first_pressed(keys) {
        Some(d) => press_events(s, d),
        None => Seq::empty(),
    }
}

/// How much one tick with `keys` pressed adds to the move count.
pub open spec fn tick_moves(s: Seq<EntityRecord>, keys: PressedKeys) -> int {
    match first_pressed(keys) {
        Some(d) => if press_chain(s, d) > 0 {
            1
        } else {
            0
        },
        None => 0,
    }
}

/// A tick never adds or removes a player: where the store held exactly one
/// entity carrying `Player`, it still does, since a tick changes where
/// entities stand and nothing else.
pub proof fn law_one_player(s: Seq<EntityRecord>, keys: PressedKeys)
    requires
        count_players(s) == 1,
    ensures
        same_tags(s, tick_entities(s, keys)),
        count_players(tick_entities(s, keys)) == 1,
{
    if let Some(d) = first_pressed(keys) {
        let t = pushed(s, d, player_position(s), press_chain(s, d));
        assert(same_tags(s, t));
    }
    lemma_same_tags_count_players(s, tick_entities(s, keys));
}

/// The move count rises by exactly one on a tick whose events report a
/// move, which is a tick that changed some entity's position, however long
/// the pushed chain; it stays on a blocked or idle tick.
pub proof fn law_moves_count(s: Seq<EntityRecord>, keys: PressedKeys)
    ensures
        tick_moves(s, keys) == if tick_entities(s, keys) != s {
            1int
        } else {
            0int
        },
        tick_moves(s, keys) == if has_entity_moved(tick_events(s, keys)) {
            1int
        } else {
            0int
        },
{
    if let Some(d) = first_pressed(keys) {
        law_moves_iff_changed(s, d);
        let ev = tick_events(s, keys);
        if press_blocked(s, d) {
            assert(ev =~= seq![Event::PlayerHitObstacle]);
            assert(!has_entity_moved(ev)) by {
                assert forall|k: int| 0 <= k < ev.len() implies !(#[trigger] ev[k] is EntityMoved) by {
                    assert(k == 0);
                }
            }
        } else {
            if let Some(g) = press_gap(s, d) {
                lemma_gap_range(s, d, player_position(s), 0, g);
            }
            let g = press_chain(s, d);
            assert(ev == moved_events(s, d, player_position(s), g));
            if g > 0 {
                assert(ev[0] is EntityMoved);
            }
        }
    }
}

/// The whole simulation: the component store and the two resources.
pub struct Game {
    pub world: World,
    pub gameplay: Gameplay,
    pub event_queue: EventQueue,
}

impl Game {
    /// Between ticks the store is well formed and the queue is empty.
    pub open spec fn wf(&self) -> bool {
        self.world.wf() && self.event_queue.events@.len() == 0
    }

    /// A game on a level, in the `Playing` state with no moves yet.
    pub fn new(world: World) -> (r: Game)
        requires
            world.wf(),
        ensures
            r.wf(),
            r.world == world,
            r.gameplay.state == GameplayState::Playing,
            r.gameplay.moves_count == 0,
    {
        Game { world, gameplay: Gameplay::default(), event_queue: EventQueue::default() }
    }

    /// One tick: resolves the input, then interprets the events it produced,
    /// which are handed back for presentation.
    pub fn update(&mut self, keys: PressedKeys) -> (events: Vec<Event>)
        requires
            old(self).wf(),
            old(self).gameplay.moves_count < u32::MAX,
        ensures
            final(self).wf(),
            final(self).world.renderables@ == old(self).world.renderables@,
            final(self).world.entities@ == tick_entities(old(self).world.entities@, keys),
            events@ == tick_events(old(self).world.entities@, keys),
            final(self).gameplay.moves_count == old(self).gameplay.moves_count + tick_moves(
                old(self).world.entities@,
                keys,
            ),
            final(self).gameplay.state == next_state(
                old(self).gameplay.state,
                final(self).world.entities@,
                events@,
            ),
    {
        let mut input = InputSystem {};
        input.run(&mut self.world, &mut self.gameplay, &mut self.event_queue, keys);
        assert(self.event_queue.events@ =~= tick_events(old(self).world.entities@, keys));
        let mut interpreter = EventSystem {};
        interpreter.run(&self.world, &mut self.event_queue, &mut self.gameplay)
    }
}

} // verus!
