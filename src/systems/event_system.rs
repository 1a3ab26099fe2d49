use vstd::prelude::*;
use vstd::relations::injective_on;
use vstd::set_lib::lemma_map_size;

use crate::components::{BoxColour, EntityRecord};
use crate::events::Event;
use crate::resources::{EventQueue, Gameplay, GameplayState};
use crate::world::{on_cell, World};

verus! {

/// `e` is a box (`is_box`) or a spot (otherwise) of colour `c` on `(x, y)`.
pub open spec fn member(e: EntityRecord, is_box: bool, x: int, y: int, c: BoxColour) -> bool {
    (if is_box {
        e.tags.box_colour
    } else {
        e.tags.spot_colour
    }) == Some(c) && on_cell(e.position, x, y)
}

/// The number of entities of `s` that are `member(_, is_box, x, y, c)`.
pub open spec fn count_members(s: Seq<EntityRecord>, is_box: bool, x: int, y: int, c: BoxColour) -> nat
    decreases s.len(),
{
    if s.len() == 0 {
        0
    } else {
        count_members(s.drop_last(), is_box, x, y, c) + if member(s.last(), is_box, x, y, c) {
            1nat
        } else {
            0nat
        }
    }
}

/// The number of boxes of colour `c` on the cell `(x, y)`.
pub open spec fn count_boxes(s: Seq<EntityRecord>, x: int, y: int, c: BoxColour) -> nat {
    count_members(s, true, x, y, c)
}

/// The number of spots of colour `c` on the cell `(x, y)`.
pub open spec fn count_spots(s: Seq<EntityRecord>, x: int, y: int, c: BoxColour) -> nat {
    count_members(s, false, x, y, c)
}

/// Entity `i`'s cell holds as many boxes as spots of the colour `i` has as
/// a box or as a spot.
pub open spec fn class_balanced(s: Seq<EntityRecord>, i: int) -> bool {
    &&& s[i].tags.box_colour matches Some(c) ==> count_boxes(s, s[i].position.x as int, s[i].position.y as int, c)
        == count_spots(s, s[i].position.x as int, s[i].position.y as int, c)
    &&& s[i].tags.spot_colour matches Some(c) ==> count_boxes(s, s[i].position.x as int, s[i].position.y as int, c)
        == count_spots(s, s[i].position.x as int, s[i].position.y as int, c)
}

/// The win predicate: every cell holds, for each colour, as many boxes as
/// spots. `law_placed_iff_pairing` shows this is the same as the boxes
/// pairing one to one with the spots, each box on a spot of its colour.
pub open spec fn all_boxes_placed(s: Seq<EntityRecord>) -> bool {
    forall|i: int| 0 <= i < s.len() ==> #[trigger] class_balanced(s, i)
}

pub open spec fn has_entity_moved(events: Seq<Event>) -> bool {
    exists|k: int| 0 <= k < events.len() && #[trigger] events[k] is EntityMoved
}

/// The gameplay state after interpreting `events` on the store `s`: it
/// becomes `Won` when some entity moved and the boxes are all placed, and
/// never leaves `Won`.
pub open spec fn next_state(state: GameplayState, s: Seq<EntityRecord>, events: Seq<Event>) -> GameplayState {
    if has_entity_moved(events) && all_boxes_placed(s) {
        GameplayState::Won
    } else {
        state
    }
}

proof fn lemma_box_counted(s: Seq<EntityRecord>, i: int, c: BoxColour)
    requires
        0 <= i < s.len(),
        s[i].tags.box_colour == Some(c),
    ensures
        count_boxes(s, s[i].position.x as int, s[i].position.y as int, c) >= 1,
    decreases s.len(),
{
    if i < s.len() - 1 {
        assert(s.drop_last()[i] == s[i]);
        lemma_box_counted(s.drop_last(), i, c);
    }
}

proof fn lemma_spot_counted(s: Seq<EntityRecord>, i: int, c: BoxColour)
    requires
        0 <= i < s.len(),
        s[i].tags.spot_colour == Some(c),
    ensures
        count_spots(s, s[i].position.x as int, s[i].position.y as int, c) >= 1,
    decreases s.len(),
{
    if i < s.len() - 1 {
        assert(s.drop_last()[i] == s[i]);
        lemma_spot_counted(s.drop_last(), i, c);
    }
}

proof fn lemma_box_witness(s: Seq<EntityRecord>, x: int, y: int, c: BoxColour)
    requires
        count_boxes(s, x, y, c) >= 1,
    ensures
        exists|j: int| 0 <= j < s.len() && s[j].tags.box_colour == Some(c) && on_cell(#[trigger] s[j].position, x, y),
    decreases s.len(),
{
    if !(s.last().tags.box_colour == Some(c) && on_cell(s.last().position, x, y)) {
        lemma_box_witness(s.drop_last(), x, y, c);
        let j = choose|j: int|
            0 <= j < s.drop_last().len() && s.drop_last()[j].tags.box_colour == Some(c) && on_cell(
                #[trigger] s.drop_last()[j].position,
                x,
                y,
            );
        assert(s[j] == s.drop_last()[j]);
    } else {
        assert(on_cell(s[s.len() - 1].position, x, y));
    }
}

proof fn lemma_spot_witness(s: Seq<EntityRecord>, x: int, y: int, c: BoxColour)
    requires
        count_spots(s, x, y, c) >= 1,
    ensures
        exists|j: int| 0 <= j < s.len() && s[j].tags.spot_colour == Some(c) && on_cell(#[trigger] s[j].position, x, y),
    decreases s.len(),
{
    if !(s.last().tags.spot_colour == Some(c) && on_cell(s.last().position, x, y)) {
        lemma_spot_witness(s.drop_last(), x, y, c);
        let j = choose|j: int|
            0 <= j < s.drop_last().len() && s.drop_last()[j].tags.spot_colour == Some(c) && on_cell(
                #[trigger] s.drop_last()[j].position,
                x,
                y,
            );
        assert(s[j] == s.drop_last()[j]);
    } else {
        assert(on_cell(s[s.len() - 1].position, x, y));
    }
}

/// When the win predicate holds, every box stands on a spot of its colour
/// and every spot holds a box of its colour.
pub proof fn law_placed_boxes_on_spots(s: Seq<EntityRecord>)
    requires
        all_boxes_placed(s),
    ensures
        forall|i: int|
            0 <= i < s.len() && (#[trigger] s[i].tags.box_colour) is Some ==> exists|j: int|
                0 <= j < s.len() && s[j].tags.spot_colour == s[i].tags.box_colour && on_cell(
                    #[trigger] s[j].position,
                    s[i].position.x as int,
                    s[i].position.y as int,
                ),
        forall|j: int|
            0 <= j < s.len() && (#[trigger] s[j].tags.spot_colour) is Some ==> exists|i: int|
                0 <= i < s.len() && s[i].tags.box_colour == s[j].tags.spot_colour && on_cell(
                    #[trigger] s[i].position,
                    s[j].position.x as int,
                    s[j].position.y as int,
                ),
{
    assert forall|i: int| 0 <= i < s.len() && (#[trigger] s[i].tags.box_colour) is Some implies exists|j: int|
        0 <= j < s.len() && s[j].tags.spot_colour == s[i].tags.box_colour && on_cell(
            #[trigger] s[j].position,
            s[i].position.x as int,
            s[i].position.y as int,
        ) by {
        let c = s[i].tags.box_colour.unwrap();
        assert(class_balanced(s, i));
        lemma_box_counted(s, i, c);
        lemma_spot_witness(s, s[i].position.x as int, s[i].position.y as int, c);
    }
    assert forall|j: int| 0 <= j < s.len() && (#[trigger] s[j].tags.spot_colour) is Some implies exists|i: int|
        0 <= i < s.len() && s[i].tags.box_colour == s[j].tags.spot_colour && on_cell(
            #[trigger] s[i].position,
            s[j].position.x as int,
            s[j].position.y as int,
        ) by {
        let c = s[j].tags.spot_colour.unwrap();
        assert(class_balanced(s, j));
        lemma_spot_counted(s, j, c);
        lemma_box_witness(s, s[j].position.x as int, s[j].position.y as int, c);
    }
}

/// How many members of the class come before index `i`.
pub open spec fn rank(s: Seq<EntityRecord>, i: int, is_box: bool, x: int, y: int, c: BoxColour) -> nat {
    count_members(s.subrange(0, i), is_box, x, y, c)
}

proof fn lemma_rank_step(s: Seq<EntityRecord>, i: int, b: bool, x: int, y: int, c: BoxColour)
    requires
        0 <= i < s.len(),
    ensures
        rank(s, i + 1, b, x, y, c) == rank(s, i, b, x, y, c) + if member(s[i], b, x, y, c) {
            1nat
        } else {
            0nat
        },
{
    assert(s.subrange(0, i + 1).drop_last() =~= s.subrange(0, i));
}

proof fn lemma_rank_mono(s: Seq<EntityRecord>, i: int, j: int, b: bool, x: int, y: int, c: BoxColour)
    requires
        0 <= i <= j <= s.len(),
    ensures
        rank(s, i, b, x, y, c) <= rank(s, j, b, x, y, c),
    decreases j - i,
{
    if i < j {
        lemma_rank_step(s, j - 1, b, x, y, c);
        lemma_rank_mono(s, i, j - 1, b, x, y, c);
    }
}

/// Members of a class have strictly growing ranks, all below the class size.
proof fn lemma_rank_strict(s: Seq<EntityRecord>, i: int, j: int, b: bool, x: int, y: int, c: BoxColour)
    requires
        0 <= i < j <= s.len(),
        member(s[i], b, x, y, c),
    ensures
        rank(s, i, b, x, y, c) < rank(s, j, b, x, y, c),
        rank(s, i, b, x, y, c) < count_members(s, b, x, y, c),
{
    lemma_rank_step(s, i, b, x, y, c);
    lemma_rank_mono(s, i + 1, j, b, x, y, c);
    lemma_rank_mono(s, i + 1, s.len() as int, b, x, y, c);
    assert(s.subrange(0, s.len() as int) =~= s);
}

/// Every rank below the class size belongs to some member.
proof fn lemma_rank_exists(s: Seq<EntityRecord>, n: int, r: nat, b: bool, x: int, y: int, c: BoxColour)
    requires
        0 <= n <= s.len(),
        r < rank(s, n, b, x, y, c),
    ensures
        exists|i: int| 0 <= i < n && member(s[i], b, x, y, c) && #[trigger] rank(s, i, b, x, y, c) == r,
    decreases n,
{
    if n == 0 {
        assert(s.subrange(0, 0) =~= seq![]);
    } else {
        lemma_rank_step(s, n - 1, b, x, y, c);
        if r < rank(s, n - 1, b, x, y, c) {
            lemma_rank_exists(s, n - 1, r, b, x, y, c);
        } else {
            assert(rank(s, n - 1, b, x, y, c) == r);
        }
    }
}

/// The indices of the members of a class.
pub open spec fn members(s: Seq<EntityRecord>, b: bool, x: int, y: int, c: BoxColour) -> Set<int> {
    Set::new(|i: int| 0 <= i < s.len() && member(s[i], b, x, y, c))
}

proof fn lemma_members_len(s: Seq<EntityRecord>, b: bool, x: int, y: int, c: BoxColour)
    ensures
        members(s, b, x, y, c).finite(),
        members(s, b, x, y, c).len() == count_members(s, b, x, y, c),
    decreases s.len(),
{
    if s.len() == 0 {
        assert(members(s, b, x, y, c) =~= Set::<int>::empty());
    } else {
        let t = s.drop_last();
        lemma_members_len(t, b, x, y, c);
        let n = s.len() - 1;
        if member(s.last(), b, x, y, c) {
            assert(members(s, b, x, y, c) =~= members(t, b, x, y, c).insert(n));
        } else {
            assert(members(s, b, x, y, c) =~= members(t, b, x, y, c));
        }
    }
}

/// `f` pairs the boxes with the spots one to one, each box with a spot of
/// its colour on its cell.
pub open spec fn is_pairing(s: Seq<EntityRecord>, f: spec_fn(int) -> int) -> bool {
    &&& forall|i: int|
        0 <= i < s.len() && s[i].tags.box_colour is Some ==> {
            let j = #[trigger] f(i);
            &&& 0 <= j < s.len()
            &&& s[j].tags.spot_colour == s[i].tags.box_colour
            &&& on_cell(s[j].position, s[i].position.x as int, s[i].position.y as int)
        }
    &&& forall|i: int, k: int|
        0 <= i < s.len() && 0 <= k < s.len() && s[i].tags.box_colour is Some && s[k].tags.box_colour is Some
            && #[trigger] f(i) == #[trigger] f(k) ==> i == k
    &&& forall|j: int|
        0 <= j < s.len() && #[trigger] s[j].tags.spot_colour is Some ==> exists|i: int|
            0 <= i < s.len() && s[i].tags.box_colour is Some && #[trigger] f(i) == j
}

/// The pairing that matches the `r`-th box of each cell and colour with the
/// `r`-th spot of the same cell and colour.
pub open spec fn rank_pairing(s: Seq<EntityRecord>) -> spec_fn(int) -> int {
    |i: int|
        {
            let x = s[i].position.x as int;
            let y = s[i].position.y as int;
            let c = s[i].tags.box_colour.unwrap();
            choose|j: int|
                0 <= j < s.len() && member(s[j], false, x, y, c) && rank(s, j, false, x, y, c) == rank(
                    s,
                    i,
                    true,
                    x,
                    y,
                    c,
                )
        }
}

proof fn lemma_pairing_balances(s: Seq<EntityRecord>, f: spec_fn(int) -> int, x: int, y: int, c: BoxColour)
    requires
        is_pairing(s, f),
    ensures
        count_boxes(s, x, y, c) == count_spots(s, x, y, c),
{
    let a = members(s, true, x, y, c);
    let bs = members(s, false, x, y, c);
    lemma_members_len(s, true, x, y, c);
    lemma_members_len(s, false, x, y, c);
    assert forall|j: int| a.map(f).contains(j) <==> bs.contains(j) by {
        if bs.contains(j) {
            assert(s[j].tags.spot_colour is Some);
            let i = choose|i: int| 0 <= i < s.len() && s[i].tags.box_colour is Some && #[trigger] f(i) == j;
            assert(a.contains(i));
        }
        if a.map(f).contains(j) {
            let i = choose|i: int| a.contains(i) && f(i) == j;
            assert(s[i].tags.box_colour is Some);
        }
    }
    assert(a.map(f) =~= bs);
    assert(injective_on(f, a)) by {
        assert forall|i: int, k: int| a.contains(i) && a.contains(k) && #[trigger] f(i) == #[trigger] f(k) implies i == k by {
            assert(s[i].tags.box_colour is Some && s[k].tags.box_colour is Some);
        }
    }
    lemma_map_size(a, bs, f);
}

proof fn lemma_rank_pairing(s: Seq<EntityRecord>)
    requires
        all_boxes_placed(s),
    ensures
        is_pairing(s, rank_pairing(s)),
{
    let f = rank_pairing(s);
    let n = s.len() as int;
    assert(s.subrange(0, n) =~= s);
    assert forall|i: int| 0 <= i < s.len() && s[i].tags.box_colour is Some implies {
        let j = #[trigger] f(i);
        &&& 0 <= j < s.len()
        &&& s[j].tags.spot_colour == s[i].tags.box_colour
        &&& on_cell(s[j].position, s[i].position.x as int, s[i].position.y as int)
    } by {
        let x = s[i].position.x as int;
        let y = s[i].position.y as int;
        let c = s[i].tags.box_colour.unwrap();
        assert(class_balanced(s, i));
        lemma_rank_strict(s, i, n, true, x, y, c);
        lemma_rank_exists(s, n, rank(s, i, true, x, y, c), false, x, y, c);
    }
    assert forall|i: int, k: int|
        0 <= i < s.len() && 0 <= k < s.len() && s[i].tags.box_colour is Some && s[k].tags.box_colour is Some
            && #[trigger] f(i) == #[trigger] f(k) implies i == k by {
        let x = s[i].position.x as int;
        let y = s[i].position.y as int;
        let c = s[i].tags.box_colour.unwrap();
        let xk = s[k].position.x as int;
        let yk = s[k].position.y as int;
        let ck = s[k].tags.box_colour.unwrap();
        assert(class_balanced(s, i));
        assert(class_balanced(s, k));
        lemma_rank_strict(s, i, n, true, x, y, c);
        lemma_rank_exists(s, n, rank(s, i, true, x, y, c), false, x, y, c);
        lemma_rank_strict(s, k, n, true, xk, yk, ck);
        lemma_rank_exists(s, n, rank(s, k, true, xk, yk, ck), false, xk, yk, ck);
        let j = f(i);
        assert(member(s[j], false, x, y, c) && rank(s, j, false, x, y, c) == rank(s, i, true, x, y, c));
        assert(member(s[j], false, xk, yk, ck) && rank(s, j, false, xk, yk, ck) == rank(s, k, true, xk, yk, ck));
        assert(member(s[i], true, x, y, c));
        assert(member(s[k], true, x, y, c));
        if i < k {
            lemma_rank_strict(s, i, k, true, x, y, c);
        } else if k < i {
            lemma_rank_strict(s, k, i, true, x, y, c);
        }
    }
    assert forall|j: int| 0 <= j < s.len() && #[trigger] s[j].tags.spot_colour is Some implies exists|i: int|
        0 <= i < s.len() && s[i].tags.box_colour is Some && #[trigger] f(i) == j by {
        let x = s[j].position.x as int;
        let y = s[j].position.y as int;
        let c = s[j].tags.spot_colour.unwrap();
        assert(class_balanced(s, j));
        let r = rank(s, j, false, x, y, c);
        lemma_rank_strict(s, j, n, false, x, y, c);
        lemma_rank_exists(s, n, r, true, x, y, c);
        let i = choose|i: int| 0 <= i < n && member(s[i], true, x, y, c) && #[trigger] rank(s, i, true, x, y, c) == r;
        assert(member(s[j], false, x, y, c));
        let j2 = f(i);
        assert(member(s[j2], false, x, y, c) && rank(s, j2, false, x, y, c) == r);
        if j < j2 {
            lemma_rank_strict(s, j, j2, false, x, y, c);
        } else if j2 < j {
            lemma_rank_strict(s, j2, j, false, x, y, c);
        }
    }
}

/// The win predicate holds exactly when the boxes can be paired one to one
/// with the spots, each box with a spot of its colour on its cell.
pub proof fn law_placed_iff_pairing(s: Seq<EntityRecord>)
    ensures
        all_boxes_placed(s) <==> exists|f: spec_fn(int) -> int| is_pairing(s, f),
{
    if all_boxes_placed(s) {
        lemma_rank_pairing(s);
    }
    if exists|f: spec_fn(int) -> int| is_pairing(s, f) {
        let f = choose|f: spec_fn(int) -> int| is_pairing(s, f);
        assert forall|i: int| 0 <= i < s.len() implies #[trigger] class_balanced(s, i) by {
            if let Some(c) = s[i].tags.box_colour {
                lemma_pairing_balances(s, f, s[i].position.x as int, s[i].position.y as int, c);
            }
            if let Some(c) = s[i].tags.spot_colour {
                lemma_pairing_balances(s, f, s[i].position.x as int, s[i].position.y as int, c);
            }
        }
    }
}

/// The gameplay state machine: `Won` is never left, and `Playing` becomes
/// `Won` exactly when the events report a move and the win predicate holds.
pub proof fn law_won_transition(s: Seq<EntityRecord>, events: Seq<Event>)
    ensures
        next_state(GameplayState::Won, s, events) == GameplayState::Won,
        next_state(GameplayState::Playing, s, events) == GameplayState::Won <==> (has_entity_moved(events)
            && all_boxes_placed(s)),
{
}

fn same_colour(a: Option<BoxColour>, c: BoxColour) -> (r: bool)
    ensures
        r == (a == Some(c)),
{
    match a {
        Some(BoxColour::Red) => c == BoxColour::Red,
        Some(BoxColour::Blue) => c == BoxColour::Blue,
        None => false,
    }
}

/// Counts the boxes and the spots of colour `c` on `(x, y)`.
fn count_class(world: &World, x: u8, y: u8, c: BoxColour) -> (r: (usize, usize))
    ensures
        r.0 == count_boxes(world.entities@, x as int, y as int, c),
        r.1 == count_spots(world.entities@, x as int, y as int, c),
{
    let ghost s = world.entities@;
    let mut boxes: usize = 0;
    let mut spots: usize = 0;
    let mut k: usize = 0;
    while k < world.entities.len()
        invariant
            s == world.entities@,
            k <= s.len(),
            boxes == count_boxes(s.subrange(0, k as int), x as int, y as int, c),
            spots == count_spots(s.subrange(0, k as int), x as int, y as int, c),
            boxes <= k,
            spots <= k,
        decreases s.len() - k,
    {
        let r = world.entities[k];
        assert(s.subrange(0, k + 1).drop_last() =~= s.subrange(0, k as int));
        if r.position.x == x && r.position.y == y {
            if same_colour(r.tags.box_colour, c) {
                boxes += 1;
            }
            if same_colour(r.tags.spot_colour, c) {
                spots += 1;
            }
        }
        k += 1;
    }
    assert(s.subrange(0, s.len() as int) =~= s);
    (boxes, spots)
}

/// Evaluates the win predicate on the store.
pub fn all_boxes_on_spots(world: &World) -> (r: bool)
    ensures
        r == all_boxes_placed(world.entities@),
{
    let ghost s = world.entities@;
    let mut i: usize = 0;
    while i < world.entities.len()
        invariant
            s == world.entities@,
            i <= s.len(),
            forall|j: int| 0 <= j < i ==> #[trigger] class_balanced(s, j),
        decreases s.len() - i,
    {
        let r = world.entities[i];
        match r.tags.box_colour {
            Some(c) => {
                let (b, t) = count_class(world, r.position.x, r.position.y, c);
                if b != t {
                    assert(!class_balanced(s, i as int));
                    return false;
                }
            },
            None => {},
        }
        match r.tags.spot_colour {
            Some(c) => {
                let (b, t) = count_class(world, r.position.x, r.position.y, c);
                if b != t {
                    assert(!class_balanced(s, i as int));
                    return false;
                }
            },
            None => {},
        }
        assert(class_balanced(s, i as int));
        i += 1;
    }
    true
}

/// Interprets the events of a tick.
pub struct EventSystem {}

impl EventSystem {
    /// Drains the queue in order, re-checking the win predicate after each
    /// `EntityMoved`, and hands the drained events back for presentation.
    pub fn run(&mut self, world: &World, queue: &mut EventQueue, gameplay: &mut Gameplay) -> (drained: Vec<
        Event,
    >)
        ensures
            drained@ == old(queue).events@,
            final(queue).events@.len() == 0,
            final(gameplay).moves_count == old(gameplay).moves_count,
            final(gameplay).state == next_state(old(gameplay).state, world.entities@, old(queue).events@),
    {
        let mut drained: Vec<Event> = Vec::new();
        std::mem::swap(&mut drained, &mut queue.events);
        let ghost events = drained@;
        let ghost st0 = gameplay.state;
        let mut k: usize = 0;
        while k < drained.len()
            invariant
                drained@ == events,
                k <= events.len(),
                gameplay.moves_count == old(gameplay).moves_count,
                gameplay.state == next_state(st0, world.entities@, events.subrange(0, k as int)),
            decreases events.len() - k,
        {
            assert(events.subrange(0, k + 1) =~= events.subrange(0, k as int).push(events[k as int]));
            assert(events.subrange(0, k + 1)[k as int] == events[k as int]);
            match drained[k] {
                Event::EntityMoved(_) => {
                    if gameplay.state == GameplayState::Playing && all_boxes_on_spots(world) {
                        gameplay.state = GameplayState::Won;
                    }
                },
                Event::PlayerHitObstacle => {},
            }
            assert(has_entity_moved(events.subrange(0, k + 1)) == (has_entity_moved(
                events.subrange(0, k as int),
            ) || events[k as int] is EntityMoved)) by {
                let sub = events.subrange(0, k as int);
                if has_entity_moved(sub) {
                    let w = choose|j: int| 0 <= j < sub.len() && #[trigger] sub[j] is EntityMoved;
                    assert(events.subrange(0, k + 1)[w] is EntityMoved);
                }
                if has_entity_moved(events.subrange(0, k + 1)) && !(events[k as int] is EntityMoved) {
                    let w = choose|j: int|
                        0 <= j < k + 1 && #[trigger] events.subrange(0, k + 1)[j] is EntityMoved;
                    assert(sub[w] is EntityMoved);
                }
            }
            k += 1;
        }
        assert(events.subrange(0, events.len() as int) =~= events);
        drained
    }
}

} // verus!
