use vstd::prelude::*;

use crate::events::Event;

verus! {

/// The sound an event calls for, by the name it was loaded under.
pub open spec fn sound_of(e: Event) -> Seq<Seq<char>> {
    match e {
        Event::PlayerHitObstacle => seq!["wall"@],
        Event::EntityMoved(_) => seq![],
    }
}

/// The sounds a run of events calls for, in order.
pub open spec fn sounds_of(events: Seq<Event>) -> Seq<Seq<char>>
    decreases events.len(),
{
    if events.len() == 0 {
        seq![]
    } else {
        sounds_of(events.drop_last()) + sound_of(events.last())
    }
}

/// Decides what the player hears.
pub struct AudioSystem {}

impl AudioSystem {
    /// The names of the sounds to play for a tick's events: a bump against
    /// an obstacle plays `wall`; a move plays nothing.
    pub fn run(&mut self, events: &Vec<Event>) -> (r: Vec<String>)
        ensures
            r@.map_values(|s: String| s@) == sounds_of(events@),
    {
        let mut r: Vec<String> = Vec::new();
        let mut k: usize = 0;
        while k < events.len()
            invariant
                k <= events@.len(),
                r@.map_values(|s: String| s@) == sounds_of(events@.subrange(0, k as int)),
            decreases events@.len() - k,
        {
            assert(events@.subrange(0, k + 1).drop_last() =~= events@.subrange(0, k as int));
            let ghost before = r@.map_values(|s: String| s@);
            match events[k] {
                Event::PlayerHitObstacle => {
                    let name = "wall".to_string();
                    r.push(name);
                    assert(r@.map_values(|s: String| s@) =~= before + seq!["wall"@]);
                },
                Event::EntityMoved(_) => {
                    assert(before + seq![] =~= before);
                },
            }
            k += 1;
        }
        assert(events@.subrange(0, events@.len() as int) =~= events@);
        r
    }
}

} // verus!
