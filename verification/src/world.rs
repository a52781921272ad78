//! The whole simulation in one place, and the tick that drives it.

use crate::building::{
    appended, buildings_destacked, cleanup_buildings, destack_buildings, placements, trigger_spawn,
    Building, BuildingAvailable, BuildingTimers, PlacementKeys,
};
use crate::chance::Dice;
use crate::drag::{all_dragged, dragging_system, CursorPosition, MouseButtons};
use crate::movement::{
    desire_moved, desire_movement, forces_reset, hastened, idle_moved, increase_all_movt,
    move_idle_persons, movements_resolved, reset_movement_vector, resolve_movements,
    social_movement, socially_moved, MovementScalar, BASE_MOVEMENT_SCALAR,
};
use crate::person::{
    cleanup_persons, decrease_scores, increase_scores, joined_by, needs_in_range, needs_kept,
    next_id, population_grown, scores_decreased, scores_increased, spawn_first_person,
    spawn_person, spawns, Person, Stacking, UsedPersons,
};
use crate::score::{refresh_satisfaction, satisfaction_refreshed, score_after, update_score, Score};
use crate::selector::{selection_switched, switch_selected, Selector};
use crate::social::{all_acquainted, in_exactly_one, social_wf, update_liked_disliked};
use crate::timer::RepeatTimer;
use vstd::prelude::*;

verus! {

/// Microseconds between two births.
pub const SPAWN_PERIOD: u64 = 6_300_000;

/// Microseconds between two decay steps.
pub const DECAY_PERIOD: u64 = 1_000_000;

/// Microseconds between two changes of idle direction.
pub const IDLE_PERIOD: u64 = 2_900_000;

/// Everything that lives from the start of a game to its end.
pub struct World {
    pub persons: Vec<Person>,
    pub used_ids: UsedPersons,
    pub buildings: Vec<Building>,
    pub spawn_timer: RepeatTimer,
    pub update_timer: RepeatTimer,
    pub dir_timer: RepeatTimer,
    pub building_timers: BuildingTimers,
    pub available: BuildingAvailable,
    pub movt_scalar: MovementScalar,
    pub selector: Selector,
    pub score: Score,
    pub stacking: Stacking,
}

/// What the outside hands in for one tick.
#[derive(Clone, Copy, Debug, Default)]
pub struct TickInput {
    /// Microseconds since the tick before.
    pub dt: u64,
    pub keys: PlacementKeys,
    pub mouse: MouseButtons,
    pub cursor_pos: CursorPosition,
    /// The haste key went down during this tick.
    pub haste_pressed: bool,
    /// The haste key came up during this tick.
    pub haste_released: bool,
    /// The key that selects the least satisfied person went down.
    pub select_least: bool,
}

/// The stations that the persons and the buildings pass on their way through
/// one tick.
pub struct Stations {
    pub reset: Seq<Person>,
    pub grown: Seq<Person>,
    pub worn: Seq<Person>,
    pub fed: Seq<Person>,
    pub acquainted: Seq<Person>,
    pub idled: Seq<Person>,
    pub swayed: Seq<Person>,
    pub drawn: Seq<Person>,
    pub resolved: Seq<Person>,
    pub cleared: Seq<Person>,
    pub boxed: Seq<Person>,
    pub placed: Seq<Building>,
    pub dragged: Seq<Building>,
    pub destacked: Seq<Building>,
}

/// Everybody's needs are in range and everybody's lists are in order.
pub open spec fn fit(persons: Seq<Person>) -> bool {
    forall|i: int|
        0 <= i < persons.len() ==> needs_in_range(#[trigger] persons[i]) && social_wf(persons[i])
}

/// The persons hold the ids of the registry, each their own, in its order.
pub open spec fn registered(persons: Seq<Person>, ids: Seq<i32>) -> bool {
    &&& persons.len() == ids.len()
    &&& forall|i: int| 0 <= i < ids.len() ==> (#[trigger] persons[i]).id == ids[i]
}

/// No id is negative, and each is larger than those handed out before it: none
/// was handed out twice.
pub open spec fn ascending(ids: Seq<i32>) -> bool {
    &&& forall|i: int| 0 <= i < ids.len() ==> ids[i] >= 0
    &&& forall|i: int, j: int| 0 <= i < j < ids.len() ==> ids[i] < ids[j]
}

/// The selector looks at somebody who is there; in an empty world it waits on
/// the id of the first to come.
pub open spec fn selection_live(ids: Seq<i32>, selector: Selector) -> bool {
    if ids.len() == 0 {
        selector.selected == 0
    } else {
        ids.contains(selector.selected)
    }
}

/// Every id of `ids` stands in exactly one of the two lists of every person.
pub open spec fn sorted_out(persons: Seq<Person>, ids: Seq<i32>) -> bool {
    forall|i: int, id: i32|
        0 <= i < persons.len() && ids.contains(id) ==> #[trigger] in_exactly_one(persons[i], id)
}

impl World {
    /// The world is in order: everybody's needs are in range and everybody's
    /// lists are in order; the persons are those of the registry, whose ids
    /// were never handed out twice; and the selector looks at one of them.
    pub open spec fn wf(self) -> bool {
        &&& fit(self.persons@)
        &&& registered(self.persons@, self.used_ids.list@)
        &&& ascending(self.used_ids.list@)
        &&& selection_live(self.used_ids.list@, self.selector)
    }

    /// Every id of the registry stands in exactly one of the two lists of every
    /// person.
    pub open spec fn everyone_classified(self) -> bool {
        sorted_out(self.persons@, self.used_ids.list@)
    }

    /// The clocks and the scalar of `after` are those of `self` one tick later.
    pub open spec fn clocks_ticked(self, after: World, input: TickInput) -> bool {
        &&& after.spawn_timer == self.spawn_timer.ticked(input.dt)
        &&& after.update_timer == self.update_timer.ticked(input.dt)
        &&& after.dir_timer == self.dir_timer.ticked(input.dt)
        &&& after.building_timers == self.building_timers.stepped(input.keys, input.dt)
        &&& after.available == after.building_timers.availability()
        &&& after.movt_scalar == hastened(
            self.movt_scalar,
            input.haste_pressed,
            input.haste_released,
        )
        &&& after.stacking == self.stacking
    }

    /// The persons of `after` are those of `self` after one tick: forces start
    /// over; somebody may be born; needs wear and are replenished; opinions are
    /// formed; idle, social and building forces add up; the step is taken and
    /// the forces, used up, are cleared; click boxes follow; satisfaction is
    /// brought up to date.
    pub open spec fn persons_ticked(self, after: World, input: TickInput, via: Stations) -> bool {
        &&& forces_reset(self.persons@, via.reset)
        &&& population_grown(
            via.reset,
            self.used_ids.list@,
            via.grown,
            after.used_ids.list@,
            spawns(self.spawn_timer, input.dt, self.used_ids.list@),
        )
        &&& scores_decreased(via.grown, via.worn, self.update_timer.fires(input.dt))
        &&& scores_increased(via.worn, via.fed, self.buildings@, input.dt, self.stacking)
        &&& all_acquainted(via.fed, via.acquainted, after.used_ids.list@)
        &&& idle_moved(via.acquainted, via.idled, self.dir_timer.fires(input.dt))
        &&& socially_moved(via.idled, via.swayed)
        &&& desire_moved(via.swayed, via.drawn, self.buildings@)
        &&& movements_resolved(via.drawn, via.resolved, after.movt_scalar, input.dt)
        &&& forces_reset(via.resolved, via.cleared)
        &&& crate::person::boxes_follow(via.cleared, via.boxed)
        &&& satisfaction_refreshed(via.boxed, after.persons@)
    }

    /// The buildings of `after` are those of `self` after one tick: placements
    /// go through, the mouse drags, stacked buildings are pulled apart, click
    /// boxes follow.
    pub open spec fn buildings_ticked(self, after: World, input: TickInput, via: Stations) -> bool {
        &&& appended(
            self.buildings@,
            via.placed,
            placements(self.building_timers, input.keys, input.dt),
        )
        &&& all_dragged(via.placed, via.dragged, input.cursor_pos, input.mouse)
        &&& buildings_destacked(via.dragged, via.destacked, input.mouse.pressed)
        &&& crate::building::boxes_follow(via.destacked, after.buildings@)
    }

    /// `after` is `self` one tick later, the persons and the buildings having
    /// passed the stations of `via`.
    pub open spec fn ticks_to(self, after: World, input: TickInput, via: Stations) -> bool {
        &&& self.clocks_ticked(after, input)
        &&& self.persons_ticked(after, input, via)
        &&& self.buildings_ticked(after, input, via)
        &&& after.score == score_after(self.score, after.persons@)
        &&& selection_switched(
            self.selector,
            after.selector,
            after.persons@,
            input.mouse.just_pressed,
            input.select_least,
            input.cursor_pos,
        )
    }

    /// An empty world, as it is while the menu shows.
    pub fn new(stacking: Stacking) -> (world: World)
        ensures
            world.persons@ == Seq::<Person>::empty(),
            world.used_ids.list@ == Seq::<i32>::empty(),
            world.buildings@ == Seq::<Building>::empty(),
            world.spawn_timer == (RepeatTimer { duration: SPAWN_PERIOD, elapsed: 0 }),
            world.update_timer == (RepeatTimer { duration: DECAY_PERIOD, elapsed: 0 }),
            world.dir_timer == (RepeatTimer { duration: IDLE_PERIOD, elapsed: 0 }),
            world.building_timers.availability() == world.available,
            world.movt_scalar == MovementScalar(BASE_MOVEMENT_SCALAR),
            world.selector == (Selector { selected: 0 }),
            world.score == Score(0),
            world.stacking == stacking,
            world.wf(),
    {
        World {
            persons: Vec::new(),
            used_ids: UsedPersons { list: Vec::new() },
            buildings: Vec::new(),
            spawn_timer: RepeatTimer::from_micros(SPAWN_PERIOD),
            update_timer: RepeatTimer::from_micros(DECAY_PERIOD),
            dir_timer: RepeatTimer::from_micros(IDLE_PERIOD),
            building_timers: BuildingTimers::new(),
            available: BuildingAvailable {
                house: false,
                forum: false,
                cinema: false,
                hospital: false,
                pool: false,
                restaurant: false,
                creative: false,
            },
            movt_scalar: MovementScalar(BASE_MOVEMENT_SCALAR),
            selector: Selector { selected: 0 },
            score: Score(0),
            stacking,
        }
    }

    /// Ends the game: persons, ids and buildings are cleared away, and the
    /// selector waits for the first person of the next game.  The clocks run
    /// on.
    pub fn reset(&mut self)
        ensures
            final(self).persons@ == Seq::<Person>::empty(),
            final(self).used_ids.list@ == Seq::<i32>::empty(),
            final(self).buildings@ == Seq::<Building>::empty(),
            final(self).selector == (Selector { selected: 0 }),
            *final(self) == (World {
                persons: final(self).persons,
                used_ids: final(self).used_ids,
                buildings: final(self).buildings,
                selector: final(self).selector,
                ..*old(self)
            }),
            final(self).wf(),
    {
        cleanup_persons(&mut self.persons, &mut self.used_ids);
        cleanup_buildings(&mut self.buildings);
        self.selector.selected = 0;
    }

    /// Starts the game in a world cleared of whatever was there: the first
    /// person comes into it, and the selector looks at them.
    pub fn start(&mut self)
        ensures
            joined_by(Seq::<Person>::empty(), final(self).persons@, 0),
            final(self).used_ids.list@ == seq![0i32],
            final(self).buildings@ == Seq::<Building>::empty(),
            final(self).selector == (Selector { selected: 0 }),
            *final(self) == (World {
                persons: final(self).persons,
                used_ids: final(self).used_ids,
                buildings: final(self).buildings,
                selector: final(self).selector,
                ..*old(self)
            }),
            final(self).wf(),
    {
        self.reset();
        spawn_first_person(&mut self.persons, &mut self.used_ids);
        proof {
            let first = self.persons@[0];
            assert(self.used_ids.list@ =~= seq![0i32]);
            assert(first.liked@ =~= Seq::<i32>::empty());
            assert(first.disliked@ =~= Seq::<i32>::empty());
            assert(self.used_ids.list@[0] == 0);
        }
    }
}

/// Nobody has changed their id nor their mind about anybody.
spec fn kept(before: Seq<Person>, after: Seq<Person>) -> bool {
    &&& after.len() == before.len()
    &&& forall|i: int|
        0 <= i < before.len() ==> (#[trigger] after[i]).id == before[i].id && after[i].liked
            == before[i].liked && after[i].disliked == before[i].disliked
}

proof fn lemma_kept_fit(before: Seq<Person>, after: Seq<Person>, ids: Seq<i32>)
    requires
        fit(before),
        registered(before, ids),
        kept(before, after),
        needs_kept(before, after),
    ensures
        fit(after),
        registered(after, ids),
{
    assert forall|i: int| 0 <= i < after.len() implies needs_in_range(#[trigger] after[i])
        && social_wf(after[i]) && after[i].id == ids[i] by {
        assert(needs_in_range(before[i]) && social_wf(before[i]));
        assert(before[i].id == ids[i]);
    }
}

proof fn lemma_kept_sorted_out(before: Seq<Person>, after: Seq<Person>, ids: Seq<i32>)
    requires
        sorted_out(before, ids),
        kept(before, after),
    ensures
        sorted_out(after, ids),
{
    assert forall|i: int, id: i32| 0 <= i < after.len() && ids.contains(id) implies #[trigger]
        in_exactly_one(after[i], id) by {
        assert(in_exactly_one(before[i], id));
        assert(after[i].liked == before[i].liked);
    }
}

proof fn lemma_reset_keeps(before: Seq<Person>, after: Seq<Person>)
    requires
        forces_reset(before, after),
    ensures
        kept(before, after),
        needs_kept(before, after),
{
    assert forall|i: int| 0 <= i < before.len() implies (#[trigger] after[i]).id == before[i].id
        && after[i].liked == before[i].liked && after[i].disliked == before[i].disliked && (
    needs_in_range(before[i]) ==> needs_in_range(after[i])) by {
        assert(crate::movement::same_but_forces(before[i], after[i]));
    }
}

proof fn lemma_grown_fit(
    before: Seq<Person>,
    ids_before: Seq<i32>,
    after: Seq<Person>,
    ids_after: Seq<i32>,
    spawned: bool,
)
    requires
        population_grown(before, ids_before, after, ids_after, spawned),
        spawned ==> next_id(ids_before) <= i32::MAX,
        fit(before),
        registered(before, ids_before),
        ascending(ids_before),
    ensures
        fit(after),
        registered(after, ids_after),
        ascending(ids_after),
        forall|x: i32| ids_before.contains(x) ==> ids_after.contains(x),
        ids_before.len() == 0 && ids_after.len() > 0 ==> ids_after.contains(0),
{
    crate::person::lemma_largest(ids_before);
    if spawned {
        let id = next_id(ids_before) as i32;
        if ids_before.len() > 0 {
            assert(ids_before[0] <= crate::person::largest(ids_before));
        }
        assert(id >= 0);
        assert forall|i: int| 0 <= i < after.len() implies needs_in_range(#[trigger] after[i])
            && social_wf(after[i]) && after[i].id == ids_after[i] by {
            if i < before.len() {
                assert(after[i] == before[i]);
                assert(needs_in_range(before[i]) && social_wf(before[i]));
                assert(before[i].id == ids_before[i]);
            } else {
                assert(after[i].liked@ =~= Seq::<i32>::empty());
                assert(after[i].disliked@ =~= Seq::<i32>::empty());
            }
        }
        assert forall|x: i32| ids_before.contains(x) implies ids_after.contains(x) by {
            let k = choose|k: int| 0 <= k < ids_before.len() && ids_before[k] == x;
            assert(ids_after[k] == x);
        }
        if ids_before.len() == 0 {
            assert(ids_after[0] == 0);
        }
    }
}

proof fn lemma_worn_keeps(before: Seq<Person>, after: Seq<Person>, fired: bool)
    requires
        scores_decreased(before, after, fired),
    ensures
        kept(before, after),
        needs_kept(before, after),
{
    assert forall|i: int| 0 <= i < before.len() implies (#[trigger] after[i]).id == before[i].id
        && after[i].liked == before[i].liked && after[i].disliked == before[i].disliked && (
    needs_in_range(before[i]) ==> needs_in_range(after[i])) by {
        if fired {
            assert(crate::person::wears_to(before[i], after[i]));
        }
    }
}

proof fn lemma_fed_keeps(
    before: Seq<Person>,
    after: Seq<Person>,
    buildings: Seq<Building>,
    dt: u64,
    policy: Stacking,
)
    requires
        scores_increased(before, after, buildings, dt, policy),
    ensures
        kept(before, after),
        needs_kept(before, after),
{
    assert forall|i: int|
        0 <= i < before.len() && needs_in_range(before[i]) implies needs_in_range(
        #[trigger] after[i],
    ) by {
        crate::person::lemma_replenished_in_range(before[i], buildings, dt, policy);
    }
}

proof fn lemma_acquainted_fit(before: Seq<Person>, after: Seq<Person>, ids: Seq<i32>)
    requires
        all_acquainted(before, after, ids),
        fit(before),
        registered(before, ids),
    ensures
        fit(after),
        registered(after, ids),
        sorted_out(after, ids),
{
    assert forall|i: int| 0 <= i < after.len() implies needs_in_range(#[trigger] after[i])
        && social_wf(after[i]) && after[i].id == ids[i] by {
        assert(crate::social::acquainted(before[i], after[i], ids));
        assert(needs_in_range(before[i]) && social_wf(before[i]));
        assert(before[i].id == ids[i]);
    }
    assert forall|i: int, id: i32| 0 <= i < after.len() && ids.contains(id) implies #[trigger]
        in_exactly_one(after[i], id) by {
        assert(social_wf(before[i]));
    }
}

proof fn lemma_idle_keeps(before: Seq<Person>, after: Seq<Person>, change: bool)
    requires
        idle_moved(before, after, change),
    ensures
        kept(before, after),
        needs_kept(before, after),
{
    assert forall|i: int| 0 <= i < before.len() implies (#[trigger] after[i]).id == before[i].id
        && after[i].liked == before[i].liked && after[i].disliked == before[i].disliked && (
    needs_in_range(before[i]) ==> needs_in_range(after[i])) by {
        assert(crate::movement::idled(before[i], after[i]));
    }
}

proof fn lemma_sway_keeps(before: Seq<Person>, after: Seq<Person>)
    requires
        socially_moved(before, after),
    ensures
        kept(before, after),
        needs_kept(before, after),
{
    assert forall|i: int| 0 <= i < before.len() implies (#[trigger] after[i]).id == before[i].id
        && after[i].liked == before[i].liked && after[i].disliked == before[i].disliked && (
    needs_in_range(before[i]) ==> needs_in_range(after[i])) by {
        assert(crate::movement::same_but_forces(before[i], after[i]));
    }
}

proof fn lemma_desire_keeps(before: Seq<Person>, after: Seq<Person>, buildings: Seq<Building>)
    requires
        desire_moved(before, after, buildings),
    ensures
        kept(before, after),
        needs_kept(before, after),
{
    assert forall|i: int| 0 <= i < before.len() implies (#[trigger] after[i]).id == before[i].id
        && after[i].liked == before[i].liked && after[i].disliked == before[i].disliked && (
    needs_in_range(before[i]) ==> needs_in_range(after[i])) by {
        assert(crate::movement::same_but_forces(before[i], after[i]));
    }
}

proof fn lemma_resolve_keeps(before: Seq<Person>, after: Seq<Person>, scalar: MovementScalar, dt: u64)
    requires
        movements_resolved(before, after, scalar, dt),
    ensures
        kept(before, after),
        needs_kept(before, after),
{
    assert forall|i: int| 0 <= i < before.len() implies (#[trigger] after[i]).id == before[i].id
        && after[i].liked == before[i].liked && after[i].disliked == before[i].disliked && (
    needs_in_range(before[i]) ==> needs_in_range(after[i])) by {
        assert(crate::movement::resolved(before[i], after[i], scalar, dt));
    }
}

proof fn lemma_boxes_keep(before: Seq<Person>, after: Seq<Person>)
    requires
        crate::person::boxes_follow(before, after),
    ensures
        kept(before, after),
        needs_kept(before, after),
{
    assert forall|i: int| 0 <= i < before.len() implies (#[trigger] after[i]).id == before[i].id
        && after[i].liked == before[i].liked && after[i].disliked == before[i].disliked && (
    needs_in_range(before[i]) ==> needs_in_range(after[i])) by {
        assert(crate::person::boxed(after[i]));
    }
}

proof fn lemma_refresh_keeps(before: Seq<Person>, after: Seq<Person>)
    requires
        satisfaction_refreshed(before, after),
    ensures
        kept(before, after),
        needs_kept(before, after),
{
}

proof fn lemma_selection_stays_live(
    before: Selector,
    after: Selector,
    persons: Seq<Person>,
    ids_before: Seq<i32>,
    ids_after: Seq<i32>,
    clicked: bool,
    tab: bool,
    cursor: CursorPosition,
)
    requires
        selection_switched(before, after, persons, clicked, tab, cursor),
        selection_live(ids_before, before),
        registered(persons, ids_after),
        forall|x: i32| ids_before.contains(x) ==> ids_after.contains(x),
        ids_before.len() == 0 && ids_after.len() > 0 ==> ids_after.contains(0),
        ids_after.len() == 0 ==> ids_before.len() == 0,
    ensures
        selection_live(ids_after, after),
{
    if after != before {
        if ids_after.len() > 0 {
            let i = choose|i: int| 0 <= i < persons.len() && after.selected == persons[i].id;
            assert(ids_after[i] == after.selected);
        }
    }
}

/// A tick keeps a world in order, and leaves every id of the registry in
/// exactly one of the two lists of every person.
proof fn lemma_tick_keeps_order(before: World, after: World, input: TickInput, via: Stations)
    requires
        before.ticks_to(after, input, via),
        before.wf(),
    ensures
        after.wf(),
        after.everyone_classified(),
{
    let old_ids = before.used_ids.list@;
    let ids = after.used_ids.list@;
    let spawned = spawns(before.spawn_timer, input.dt, old_ids);
    lemma_reset_keeps(before.persons@, via.reset);
    lemma_kept_fit(before.persons@, via.reset, old_ids);
    lemma_grown_fit(via.reset, old_ids, via.grown, ids, spawned);
    lemma_worn_keeps(via.grown, via.worn, before.update_timer.fires(input.dt));
    lemma_kept_fit(via.grown, via.worn, ids);
    lemma_fed_keeps(via.worn, via.fed, before.buildings@, input.dt, before.stacking);
    lemma_kept_fit(via.worn, via.fed, ids);
    lemma_acquainted_fit(via.fed, via.acquainted, ids);
    lemma_idle_keeps(via.acquainted, via.idled, before.dir_timer.fires(input.dt));
    lemma_kept_fit(via.acquainted, via.idled, ids);
    lemma_kept_sorted_out(via.acquainted, via.idled, ids);
    lemma_sway_keeps(via.idled, via.swayed);
    lemma_kept_fit(via.idled, via.swayed, ids);
    lemma_kept_sorted_out(via.idled, via.swayed, ids);
    lemma_desire_keeps(via.swayed, via.drawn, before.buildings@);
    lemma_kept_fit(via.swayed, via.drawn, ids);
    lemma_kept_sorted_out(via.swayed, via.drawn, ids);
    lemma_resolve_keeps(via.drawn, via.resolved, after.movt_scalar, input.dt);
    lemma_kept_fit(via.drawn, via.resolved, ids);
    lemma_kept_sorted_out(via.drawn, via.resolved, ids);
    lemma_reset_keeps(via.resolved, via.cleared);
    lemma_kept_fit(via.resolved, via.cleared, ids);
    lemma_kept_sorted_out(via.resolved, via.cleared, ids);
    lemma_boxes_keep(via.cleared, via.boxed);
    lemma_kept_fit(via.cleared, via.boxed, ids);
    lemma_kept_sorted_out(via.cleared, via.boxed, ids);
    lemma_refresh_keeps(via.boxed, after.persons@);
    lemma_kept_fit(via.boxed, after.persons@, ids);
    lemma_kept_sorted_out(via.boxed, after.persons@, ids);
    lemma_selection_stays_live(
        before.selector,
        after.selector,
        after.persons@,
        old_ids,
        ids,
        input.mouse.just_pressed,
        input.select_least,
        input.cursor_pos,
    );
}

impl World {
    /// One tick of the simulation, in this order: forces start over; somebody
    /// may be born; needs wear and are replenished; opinions are formed; idle,
    /// social and building forces add up; every step is taken, and only now
    /// does anybody move; the forces are cleared; click boxes follow;
    /// satisfaction is brought up to date; buildings are placed, dragged and
    /// pulled apart; the score is brought up to date; the selection follows the
    /// mouse and the keyboard.
    ///
    /// A world in order stays in order, and afterwards everybody has made up
    /// their mind about everybody.
    pub fn tick(&mut self, input: &TickInput, dice: &mut Dice)
        ensures
            exists|via: Stations| old(self).ticks_to(*final(self), *input, via),
            old(self).wf() ==> final(self).wf() && final(self).everyone_classified(),
    {
        let dt: u64 = input.dt;
        increase_all_movt(input.haste_pressed, input.haste_released, &mut self.movt_scalar);
        reset_movement_vector(&mut self.persons);
        let ghost reset = self.persons@;
        spawn_person(&mut self.persons, &mut self.used_ids, dt, &mut self.spawn_timer);
        let ghost grown = self.persons@;
        decrease_scores(&mut self.persons, dt, &mut self.update_timer, dice);
        let ghost worn = self.persons@;
        increase_scores(&mut self.persons, &self.buildings, dt, self.stacking);
        let ghost fed = self.persons@;
        update_liked_disliked(&mut self.persons, &self.used_ids, dice);
        let ghost acquainted = self.persons@;
        move_idle_persons(&mut self.persons, dt, &mut self.dir_timer, dice);
        let ghost idled = self.persons@;
        social_movement(&mut self.persons);
        let ghost swayed = self.persons@;
        desire_movement(&mut self.persons, &self.buildings);
        let ghost drawn = self.persons@;
        resolve_movements(&mut self.persons, dt, &self.movt_scalar);
        let ghost resolved = self.persons@;
        reset_movement_vector(&mut self.persons);
        let ghost cleared = self.persons@;
        crate::person::hitbox_follow(&mut self.persons);
        let ghost boxed = self.persons@;
        refresh_satisfaction(&mut self.persons);
        trigger_spawn(
            &mut self.buildings,
            &input.keys,
            dt,
            &mut self.available,
            &mut self.building_timers,
        );
        let ghost placed = self.buildings@;
        dragging_system(&mut self.buildings, &input.mouse, &input.cursor_pos);
        let ghost dragged = self.buildings@;
        destack_buildings(&mut self.buildings, input.mouse.pressed);
        let ghost destacked = self.buildings@;
        crate::building::hitbox_follow(&mut self.buildings);
        update_score(&mut self.score, &self.persons);
        switch_selected(
            &mut self.selector,
            &self.persons,
            input.mouse.just_pressed,
            input.select_least,
            &input.cursor_pos,
        );
        proof {
            let via = Stations {
                reset,
                grown,
                worn,
                fed,
                acquainted,
                idled,
                swayed,
                drawn,
                resolved,
                cleared,
                boxed,
                placed,
                dragged,
                destacked,
            };
            assert(old(self).clocks_ticked(*self, *input));
            assert(old(self).persons_ticked(*self, *input, via));
            assert(old(self).buildings_ticked(*self, *input, via));
            assert(old(self).ticks_to(*self, *input, via));
            if old(self).wf() {
                lemma_tick_keeps_order(*old(self), *self, *input, via);
            }
        }
    }
}

} // verus!
