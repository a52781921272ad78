//! The forces that move a person: idle wandering, company sought or shunned,
//! buildings that answer a need; and the step that the sum of them comes to.

use crate::building::{Building, BuildingType};
use crate::chance::Dice;
use crate::person::Person;
use crate::social::{dislikes, likes};
use crate::timer::RepeatTimer;
use crate::fixed::{div_trunc, sqrt_ceil, sqrt_floor};
use crate::vector::{
    abs_int, banded, capped, dist_sq, dot, in_world, lemma_banded_in_band, norm_sq, point_negated,
    point_plus, point_scaled, refined, shrunk, step_between, Vec2,
};
use vstd::prelude::*;

verus! {

/// A general scalar applied to all movements, in tenths.
pub const BASE_MOVEMENT_SCALAR: u32 = 22;

/// The strength of idle wandering.
pub const IDLE_INTERACT: i64 = 2_500_000;

/// One coordinate of a diagonal idle step: `IDLE_INTERACT` over the square root
/// of two, so that a diagonal step is as long as a straight one.
pub const IDLE_DIAGONAL: i64 = 1_767_767;

/// The strength of social interactions, in tenths.
pub const SOCIAL_INTERACT: u32 = 10;

/// The strength of the attraction of buildings, in tenths.
pub const BUILDING_INTERACT: u32 = 60;

/// Pull of the restaurant on the hungry, in tenths: the strongest of all.
pub const RESTAURANT_PULL: u32 = 4 * BUILDING_INTERACT;

/// Pull of the house on the unsheltered, in tenths: the weakest of all.
pub const HOUSE_PULL: u32 = BUILDING_INTERACT / 2;

/// Pull of the hospital on the unwell, in tenths: the strongest but for the
/// restaurant's.
pub const HOSPITAL_PULL: u32 = 7 * BUILDING_INTERACT / 2;

/// Pull of the forum on the lonely, in tenths.
pub const FORUM_PULL: u32 = 3 * BUILDING_INTERACT;

/// Pull of the creative mart on the uninspired, in tenths.
pub const CREATIVE_PULL: u32 = 2 * BUILDING_INTERACT;

/// Pull of the pool on the restless, in tenths.
pub const POOL_PULL: u32 = 6 * BUILDING_INTERACT / 10;

/// Pull of the cinema on the bored, in tenths.
pub const CINEMA_PULL: u32 = BUILDING_INTERACT;

/// No single attraction or repulsion counts a distance beyond this one.
pub const PULL_REACH: u64 = 5_000_000;

/// Shortest step a person makes in a second, before the movement scalar.
pub const MIN_SPEED: u64 = 250_000;

/// Longest step a person makes in a second, before the movement scalar.
pub const MAX_SPEED: u64 = 6_500_000;

/// What replaces either coordinate of a null sum of forces.
pub const NUDGE: i64 = 10_000;

/// Under this, hunger is a problem.
pub const HUNGER_THRESHOLD: u32 = 25_000;

/// Under this, shelter is a problem.
pub const SHELTER_THRESHOLD: u32 = 10_000;

/// Under this, company is a problem.
pub const SOCIAL_THRESHOLD: u32 = 25_000;

/// Under this, entertainment is a problem.
pub const ENTERT_THRESHOLD: u32 = 20_000;

/// Under this, health is a problem.
pub const HEALTH_THRESHOLD: u32 = 30_000;

/// Under this, sport is a problem.
pub const SPORT_THRESHOLD: u32 = 20_000;

/// Under this, creativity is a problem.
pub const CREAT_THRESHOLD: u32 = 20_000;

/// The idle movement direction.
#[derive(Clone, Copy, Debug, Default, PartialEq, Eq, Structural)]
pub enum MovementDir {
    #[default]
    PlusX,
    PlusY,
    PlusBoth,
    MinusX,
    MinusY,
    MinusBoth,
}

/// The scalar applied to every step, in tenths.
#[derive(Clone, Copy, Debug, PartialEq, Eq, Structural)]
pub struct MovementScalar(pub u32);

/// The direction that a roll of `n` stands for.
pub open spec fn direction_of(n: int) -> MovementDir {
    if n == 0 {
        MovementDir::PlusX
    } else if n == 1 {
        MovementDir::PlusY
    } else if n == 2 {
        MovementDir::PlusBoth
    } else if n == 3 {
        MovementDir::MinusX
    } else if n == 4 {
        MovementDir::MinusY
    } else if n == 5 {
        MovementDir::MinusBoth
    } else {
        MovementDir::PlusBoth
    }
}

/// The idle force in a direction: as strong along a diagonal as along an axis.
pub open spec fn idle_step(dir: MovementDir) -> (int, int) {
    match dir {
        MovementDir::PlusX => (IDLE_INTERACT as int, 0),
        MovementDir::PlusY => (0, IDLE_INTERACT as int),
        MovementDir::PlusBoth => (IDLE_DIAGONAL as int, IDLE_DIAGONAL as int),
        MovementDir::MinusX => (-IDLE_INTERACT as int, 0),
        MovementDir::MinusY => (0, -IDLE_INTERACT as int),
        MovementDir::MinusBoth => (-IDLE_DIAGONAL as int, -IDLE_DIAGONAL as int),
    }
}

/// A diagonal idle step is as long as a straight one, to the millionth.
pub proof fn lemma_idle_steps_alike(dir: MovementDir)
    ensures
        IDLE_INTERACT * IDLE_INTERACT <= norm_sq(idle_step(dir)),
        norm_sq(idle_step(dir)) < (IDLE_INTERACT + 1) * (IDLE_INTERACT + 1),
{
}

impl MovementDir {
    /// The direction that a roll of `n` stands for.
    pub fn from_index(n: u32) -> (dir: MovementDir)
        ensures
            dir == direction_of(n as int),
    {
        match n {
            0 => MovementDir::PlusX,
            1 => MovementDir::PlusY,
            2 => MovementDir::PlusBoth,
            3 => MovementDir::MinusX,
            4 => MovementDir::MinusY,
            5 => MovementDir::MinusBoth,
            _ => MovementDir::PlusBoth,
        }
    }

    /// One of the six directions, each as likely as the other.
    pub fn sample(dice: &mut Dice) -> (dir: MovementDir)
        ensures
            exists|n: int| 0 <= n < 6 && dir == direction_of(n),
    {
        let n: u32 = dice.below(6);
        MovementDir::from_index(n)
    }

    /// The idle force in this direction.
    pub fn idle_force(self) -> (force: Vec2)
        ensures
            force@ == idle_step(self),
    {
        match self {
            MovementDir::PlusX => Vec2::new(IDLE_INTERACT, 0),
            MovementDir::PlusY => Vec2::new(0, IDLE_INTERACT),
            MovementDir::PlusBoth => Vec2::new(IDLE_DIAGONAL, IDLE_DIAGONAL),
            MovementDir::MinusX => Vec2::new(-IDLE_INTERACT, 0),
            MovementDir::MinusY => Vec2::new(0, -IDLE_INTERACT),
            MovementDir::MinusBoth => Vec2::new(-IDLE_DIAGONAL, -IDLE_DIAGONAL),
        }
    }
}

/// The force with which a person at `from` is drawn to `to` (or driven from it):
/// the step between them, no longer than `PULL_REACH`, times `factor` tenths.
pub open spec fn pull(from: (int, int), to: (int, int), towards: bool, factor: int) -> (int, int) {
    let drawn = point_scaled(capped(step_between(from, to), PULL_REACH as int), factor, 10);
    if towards {
        drawn
    } else {
        point_negated(drawn)
    }
}

/// Of the seven buildings that answer a need, the restaurant pulls hardest and
/// the house least: from the same place at the same distance, the pull of the
/// restaurant is the longest and that of the house the shortest.
pub proof fn lemma_pulls_in_order()
    ensures
        RESTAURANT_PULL > HOSPITAL_PULL > FORUM_PULL > CREATIVE_PULL > CINEMA_PULL > POOL_PULL
            > HOUSE_PULL > 0,
{
}

/// A heavier weight never makes a pull shorter: each coordinate of the pull
/// grows with the weight.
pub proof fn lemma_pull_grows_with_weight(
    from: (int, int),
    to: (int, int),
    lighter: int,
    heavier: int,
)
    requires
        0 <= lighter <= heavier,
    ensures
        crate::vector::abs_int(pull(from, to, true, lighter).0) <= crate::vector::abs_int(
            pull(from, to, true, heavier).0,
        ),
        crate::vector::abs_int(pull(from, to, true, lighter).1) <= crate::vector::abs_int(
            pull(from, to, true, heavier).1,
        ),
        norm_sq(pull(from, to, true, lighter)) <= norm_sq(pull(from, to, true, heavier)),
{
    let step = capped(step_between(from, to), PULL_REACH as int);
    lemma_scaled_grows(step.0, lighter, heavier);
    lemma_scaled_grows(step.1, lighter, heavier);
    let a = pull(from, to, true, lighter);
    let b = pull(from, to, true, heavier);
    assert(a.0 * a.0 <= b.0 * b.0) by (nonlinear_arith)
        requires
            crate::vector::abs_int(a.0) <= crate::vector::abs_int(b.0),
    ;
    assert(a.1 * a.1 <= b.1 * b.1) by (nonlinear_arith)
        requires
            crate::vector::abs_int(a.1) <= crate::vector::abs_int(b.1),
    ;
}

proof fn lemma_scaled_grows(c: int, lighter: int, heavier: int)
    requires
        0 <= lighter <= heavier,
    ensures
        crate::vector::abs_int(crate::vector::clamp_coord(crate::fixed::div_trunc(c * lighter, 10)))
            <= crate::vector::abs_int(
            crate::vector::clamp_coord(crate::fixed::div_trunc(c * heavier, 10)),
        ),
{
    if c >= 0 {
        assert(0 <= c * lighter <= c * heavier) by (nonlinear_arith)
            requires
                c >= 0,
                0 <= lighter <= heavier,
        ;
    } else {
        assert(0 >= c * lighter >= c * heavier) by (nonlinear_arith)
            requires
                c < 0,
                0 <= lighter <= heavier,
        ;
    }
}

/// `after` is `before` but for the sum of forces.
pub open spec fn same_but_forces(before: Person, after: Person) -> bool {
    after == (Person { movement_vector: after.movement_vector, ..before })
}

/// Adds to the person's sum of forces the pull toward `destination`, or away
/// from it.
pub fn move_relative_to(
    moved_person: &mut Person,
    destination: &Vec2,
    towards: bool,
    factor: u32,
)
    ensures
        final(moved_person).movement_vector@ == point_plus(
            old(moved_person).movement_vector@,
            pull(old(moved_person).position@, destination@, towards, factor as int),
        ),
        same_but_forces(*old(moved_person), *final(moved_person)),
{
    let drawn: Vec2 = moved_person.position.step_toward(destination, PULL_REACH).scaled(
        factor as u64,
        10,
    );
    let force: Vec2 = if towards {
        drawn
    } else {
        drawn.negated()
    };
    moved_person.movement_vector = moved_person.movement_vector.plus(force);
}

/// Building `i` is of the wanted kind, no building of that kind is nearer to
/// `origin`, and none before it is as near.
pub open spec fn is_closest(
    origin: (int, int),
    kind: BuildingType,
    buildings: Seq<Building>,
    i: int,
) -> bool {
    &&& 0 <= i < buildings.len()
    &&& buildings[i].kind == kind
    &&& forall|j: int|
        0 <= j < buildings.len() && (#[trigger] buildings[j]).kind == kind ==> dist_sq(
            origin,
            buildings[i].position@,
        ) <= dist_sq(origin, buildings[j].position@)
    &&& forall|j: int|
        0 <= j < i && (#[trigger] buildings[j]).kind == kind ==> dist_sq(
            origin,
            buildings[i].position@,
        ) < dist_sq(origin, buildings[j].position@)
}

/// Where the nearest building of the given kind stands; `origin` itself where
/// there is none, so that it pulls nobody anywhere.
pub open spec fn closest_of_kind(
    origin: (int, int),
    kind: BuildingType,
    buildings: Seq<Building>,
) -> (int, int) {
    if exists|i: int| is_closest(origin, kind, buildings, i) {
        buildings[choose|i: int| is_closest(origin, kind, buildings, i)].position@
    } else {
        origin
    }
}

/// At most one building is the closest of its kind.
pub proof fn lemma_closest_is_unique(
    origin: (int, int),
    kind: BuildingType,
    buildings: Seq<Building>,
    i: int,
    j: int,
)
    requires
        is_closest(origin, kind, buildings, i),
        is_closest(origin, kind, buildings, j),
    ensures
        i == j,
{
    if i < j {
        assert(buildings[i].kind == kind);
    } else if j < i {
        assert(buildings[j].kind == kind);
    }
}

/// Get the position of the closest building of the given type.
pub fn get_closest_of_interest(
    origin: &Vec2,
    desired_type: BuildingType,
    buildings: &Vec<Building>,
) -> (spot: Vec2)
    ensures
        spot@ == closest_of_kind(origin@, desired_type, buildings@),
{
    let mut best: Option<usize> = None;
    let mut min_distance_of_interest: u128 = 0;
    let mut k: usize = 0;
    while k < buildings.len()
        invariant
            0 <= k <= buildings.len(),
            best is None ==> forall|j: int| 0 <= j < k ==> (#[trigger] buildings[j]).kind != desired_type,
            best matches Some(b) ==> {
                &&& b < k
                &&& buildings[b as int].kind == desired_type
                &&& min_distance_of_interest == dist_sq(origin@, buildings[b as int].position@)
                &&& forall|j: int|
                    0 <= j < k && (#[trigger] buildings[j]).kind == desired_type
                        ==> min_distance_of_interest <= dist_sq(origin@, buildings[j].position@)
                &&& forall|j: int|
                    0 <= j < b && (#[trigger] buildings[j]).kind == desired_type
                        ==> min_distance_of_interest < dist_sq(origin@, buildings[j].position@)
            },
        decreases buildings.len() - k,
    {
        if buildings[k].kind == desired_type {
            let newest_distance: u128 = origin.distance_squared(&buildings[k].position);
            if best.is_none() || newest_distance < min_distance_of_interest {
                min_distance_of_interest = newest_distance;
                best = Some(k);
            }
        }
        k += 1;
    }
    match best {
        Some(b) => {
            proof {
                assert(is_closest(origin@, desired_type, buildings@, b as int));
                let c = choose|i: int| is_closest(origin@, desired_type, buildings@, i);
                lemma_closest_is_unique(origin@, desired_type, buildings@, b as int, c);
            }
            buildings[b].position
        },
        None => {
            proof {
                assert forall|i: int| !is_closest(origin@, desired_type, buildings@, i) by {
                    if 0 <= i < buildings@.len() {
                        assert(buildings@[i].kind != desired_type);
                    }
                }
            }
            *origin
        },
    }
}

/// Where no building of the wanted kind stands, the nearest of them is the
/// origin itself, and its pull is nothing at all.
pub proof fn lemma_no_building_no_pull(
    origin: (int, int),
    kind: BuildingType,
    buildings: Seq<Building>,
    weight: int,
)
    requires
        forall|i: int| 0 <= i < buildings.len() ==> (#[trigger] buildings[i]).kind != kind,
        weight >= 0,
    ensures
        closest_of_kind(origin, kind, buildings) == origin,
        pull(origin, origin, true, weight) == (0int, 0int),
{
    assert forall|i: int| !is_closest(origin, kind, buildings, i) by {
        if 0 <= i < buildings.len() {
            assert(buildings[i].kind != kind);
        }
    }
    assert(0int * weight == 0) by (nonlinear_arith);
    assert(0int * 0int == 0) by (nonlinear_arith);
    assert(PULL_REACH * PULL_REACH >= 0) by (nonlinear_arith);
}

/// The sum of forces `v` with, where the person is `needy`, the pull of the
/// nearest building of the given kind added.
pub open spec fn drawn_to(
    position: (int, int),
    v: (int, int),
    needy: bool,
    kind: BuildingType,
    weight: int,
    buildings: Seq<Building>,
) -> (int, int) {
    if needy {
        point_plus(v, pull(position, closest_of_kind(position, kind, buildings), true, weight))
    } else {
        v
    }
}

/// A person's sum of forces once every need that has fallen under its threshold
/// has added the pull of the nearest building that answers it.
pub open spec fn desired_vector(p: Person, buildings: Seq<Building>) -> (int, int) {
    let at = p.position@;
    let v0 = p.movement_vector@;
    let v1 = drawn_to(
        at,
        v0,
        p.hunger < HUNGER_THRESHOLD,
        BuildingType::Restaurant,
        RESTAURANT_PULL as int,
        buildings,
    );
    let v2 = drawn_to(
        at,
        v1,
        p.shelter < SHELTER_THRESHOLD,
        BuildingType::House,
        HOUSE_PULL as int,
        buildings,
    );
    let v3 = drawn_to(
        at,
        v2,
        p.health < HEALTH_THRESHOLD,
        BuildingType::Hospital,
        HOSPITAL_PULL as int,
        buildings,
    );
    let v4 = drawn_to(
        at,
        v3,
        p.social < SOCIAL_THRESHOLD,
        BuildingType::Forum,
        FORUM_PULL as int,
        buildings,
    );
    let v5 = drawn_to(
        at,
        v4,
        p.creativity < CREAT_THRESHOLD,
        BuildingType::Creative,
        CREATIVE_PULL as int,
        buildings,
    );
    let v6 = drawn_to(
        at,
        v5,
        p.sport < SPORT_THRESHOLD,
        BuildingType::Pool,
        POOL_PULL as int,
        buildings,
    );
    drawn_to(
        at,
        v6,
        p.entertained < ENTERT_THRESHOLD,
        BuildingType::Cinema,
        CINEMA_PULL as int,
        buildings,
    )
}

fn seek(person: &mut Person, needy: bool, kind: BuildingType, weight: u32, buildings: &Vec<Building>)
    ensures
        final(person).movement_vector@ == drawn_to(
            old(person).position@,
            old(person).movement_vector@,
            needy,
            kind,
            weight as int,
            buildings@,
        ),
        same_but_forces(*old(person), *final(person)),
{
    if needy {
        let spot: Vec2 = get_closest_of_interest(&person.position, kind, buildings);
        move_relative_to(person, &spot, true, weight);
    }
}

/// Adds to one person's sum of forces the pull of every building that answers a
/// need of theirs which has fallen under its threshold.
pub fn desire_one(person: &mut Person, buildings: &Vec<Building>)
    ensures
        final(person).movement_vector@ == desired_vector(*old(person), buildings@),
        same_but_forces(*old(person), *final(person)),
{
    // If problem, move towards the closest building that solves the problem
    let hungry: bool = person.hunger < HUNGER_THRESHOLD;
    seek(person, hungry, BuildingType::Restaurant, RESTAURANT_PULL, buildings);
    let unsheltered: bool = person.shelter < SHELTER_THRESHOLD;
    seek(person, unsheltered, BuildingType::House, HOUSE_PULL, buildings);
    let unwell: bool = person.health < HEALTH_THRESHOLD;
    seek(person, unwell, BuildingType::Hospital, HOSPITAL_PULL, buildings);
    let lonely: bool = person.social < SOCIAL_THRESHOLD;
    seek(person, lonely, BuildingType::Forum, FORUM_PULL, buildings);
    let uninspired: bool = person.creativity < CREAT_THRESHOLD;
    seek(person, uninspired, BuildingType::Creative, CREATIVE_PULL, buildings);
    let restless: bool = person.sport < SPORT_THRESHOLD;
    seek(person, restless, BuildingType::Pool, POOL_PULL, buildings);
    let bored: bool = person.entertained < ENTERT_THRESHOLD;
    seek(person, bored, BuildingType::Cinema, CINEMA_PULL, buildings);
}

/// Every person of `after` is the person of `before` with the pull of the
/// buildings added to their sum of forces.
pub open spec fn desire_moved(
    before: Seq<Person>,
    after: Seq<Person>,
    buildings: Seq<Building>,
) -> bool {
    &&& after.len() == before.len()
    &&& forall|i: int|
        0 <= i < before.len() ==> {
            &&& (#[trigger] after[i]).movement_vector@ == desired_vector(before[i], buildings)
            &&& same_but_forces(before[i], after[i])
        }
}

/// Adds the pull of the buildings to everybody's sum of forces.
///
/// Positions and needs are read and never written, so the order in which the
/// persons are visited changes nothing.
pub fn desire_movement(persons: &mut Vec<Person>, buildings: &Vec<Building>)
    ensures
        desire_moved(old(persons)@, final(persons)@, buildings@),
{
    let mut i: usize = 0;
    while i < persons.len()
        invariant
            0 <= i <= persons.len(),
            persons.len() == old(persons).len(),
            forall|j: int| i <= j < persons.len() ==> persons[j] == old(persons)[j],
            forall|j: int|
                0 <= j < i ==> {
                    &&& (#[trigger] persons[j]).movement_vector@ == desired_vector(
                        old(persons)[j],
                        buildings@,
                    )
                    &&& same_but_forces(old(persons)[j], persons[j])
                },
        decreases persons.len() - i,
    {
        desire_one(&mut persons[i], buildings);
        i += 1;
    }
}

/// Every person of `after` is the person of `before` with no force on them.
pub open spec fn forces_reset(before: Seq<Person>, after: Seq<Person>) -> bool {
    &&& after.len() == before.len()
    &&& forall|i: int|
        0 <= i < before.len() ==> {
            &&& (#[trigger] after[i]).movement_vector@ == (0int, 0int)
            &&& same_but_forces(before[i], after[i])
        }
}

/// Starts everybody's sum of forces over at nothing.
pub fn reset_movement_vector(persons: &mut Vec<Person>)
    ensures
        forces_reset(old(persons)@, final(persons)@),
{
    let mut i: usize = 0;
    while i < persons.len()
        invariant
            0 <= i <= persons.len(),
            persons.len() == old(persons).len(),
            forall|j: int| i <= j < persons.len() ==> persons[j] == old(persons)[j],
            forall|j: int|
                0 <= j < i ==> {
                    &&& (#[trigger] persons[j]).movement_vector@ == (0int, 0int)
                    &&& same_but_forces(old(persons)[j], persons[j])
                },
        decreases persons.len() - i,
    {
        persons[i].movement_vector = Vec2::zero();
        i += 1;
    }
}

/// The scalar after the haste key went down or came up: three times as much
/// while it is held, as far as the number can go.
pub open spec fn hastened(scalar: MovementScalar, just_pressed: bool, just_released: bool) -> MovementScalar {
    if just_pressed {
        MovementScalar(
            if scalar.0 * 3 > u32::MAX {
                u32::MAX
            } else {
                (scalar.0 * 3) as u32
            },
        )
    } else if just_released {
        MovementScalar(scalar.0 / 3)
    } else {
        scalar
    }
}

/// Triples every step while the haste key is held.
pub fn increase_all_movt(just_pressed: bool, just_released: bool, movt_scalar: &mut MovementScalar)
    ensures
        *final(movt_scalar) == hastened(*old(movt_scalar), just_pressed, just_released),
{
    if just_pressed {
        movt_scalar.0 = if movt_scalar.0 > u32::MAX / 3 {
            u32::MAX
        } else {
            movt_scalar.0 * 3
        };
    } else if just_released {
        movt_scalar.0 = movt_scalar.0 / 3;
    }
}

/// What one tick of idling does to a person: the idle force of the direction
/// they end up with is added to their sum of forces, and nothing else changes.
pub open spec fn idled(before: Person, after: Person) -> bool {
    &&& after.movement_vector@ == point_plus(
        before.movement_vector@,
        idle_step(after.movement_direction),
    )
    &&& after == (Person {
        movement_vector: after.movement_vector,
        movement_direction: after.movement_direction,
        ..before
    })
}

/// Every person of `after` is the person of `before` after one tick of idling;
/// nobody has changed direction unless the directions were due for a `change`.
pub open spec fn idle_moved(before: Seq<Person>, after: Seq<Person>, change: bool) -> bool {
    &&& after.len() == before.len()
    &&& forall|i: int|
        0 <= i < before.len() ==> {
            &&& idled(before[i], #[trigger] after[i])
            &&& !change ==> after[i].movement_direction == before[i].movement_direction
        }
}

/// Advances the clock of idle directions; where it goes off everybody takes a
/// new direction at random, and in any case everybody's sum of forces gets the
/// idle force of their direction.
pub fn move_idle_persons(
    persons: &mut Vec<Person>,
    dt: u64,
    dir_timer: &mut RepeatTimer,
    dice: &mut Dice,
)
    ensures
        *final(dir_timer) == old(dir_timer).ticked(dt),
        idle_moved(old(persons)@, final(persons)@, old(dir_timer).fires(dt)),
        !old(dir_timer).fires(dt) ==> *final(dice) == *old(dice),
{
    let change: bool = dir_timer.tick(dt);
    let mut i: usize = 0;
    while i < persons.len()
        invariant
            0 <= i <= persons.len(),
            persons.len() == old(persons).len(),
            !change ==> *dice == *old(dice),
            forall|j: int| i <= j < persons.len() ==> persons[j] == old(persons)[j],
            forall|j: int|
                0 <= j < i ==> {
                    &&& idled(old(persons)[j], #[trigger] persons[j])
                    &&& !change ==> persons[j].movement_direction == old(
                        persons,
                    )[j].movement_direction
                },
        decreases persons.len() - i,
    {
        if change {
            // change the directions at random
            persons[i].movement_direction = MovementDir::sample(dice);
        }
        let force: Vec2 = persons[i].movement_direction.idle_force();
        persons[i].movement_vector = persons[i].movement_vector.plus(force);
        i += 1;
    }
}

/// The sum of forces `v` of a person once the company of another has acted on
/// it: drawn to one they like, driven from one they dislike, left alone by one
/// they have no opinion of.
pub open spec fn swayed(v: (int, int), me: Person, other_id: i32, other_at: (int, int)) -> (int, int) {
    if me.liked@.contains(other_id) {
        point_plus(v, pull(me.position@, other_at, true, SOCIAL_INTERACT as int))
    } else if me.disliked@.contains(other_id) {
        point_plus(v, pull(me.position@, other_at, false, SOCIAL_INTERACT as int))
    } else {
        v
    }
}

/// Person `i`'s sum of forces once the company of every person before `k`, but
/// for person `i` itself, has acted on it.
pub open spec fn social_sum(persons: Seq<Person>, i: int, k: int) -> (int, int)
    decreases k,
{
    if k <= 0 {
        persons[i].movement_vector@
    } else if k - 1 == i {
        social_sum(persons, i, k - 1)
    } else {
        swayed(social_sum(persons, i, k - 1), persons[i], persons[k - 1].id, persons[k - 1].position@)
    }
}

fn sway(person: &mut Person, other_id: i32, other_at: &Vec2)
    ensures
        final(person).movement_vector@ == swayed(
            old(person).movement_vector@,
            *old(person),
            other_id,
            other_at@,
        ),
        same_but_forces(*old(person), *final(person)),
{
    // If person X likes person Y, move them towards person Y and vice-versa
    if likes(person, other_id) {
        move_relative_to(person, other_at, true, SOCIAL_INTERACT);
    } else if dislikes(person, other_id) {
        move_relative_to(person, other_at, false, SOCIAL_INTERACT);
    }
}

/// How many others have acted on person `i` when the pair `(a, b)` is next.
spec fn acted(a: int, b: int, i: int, n: int) -> int {
    if i < a {
        n
    } else if i == a {
        b
    } else if i < b {
        a + 1
    } else {
        a
    }
}

spec fn half_swayed(before: Seq<Person>, now: Seq<Person>, a: int, b: int) -> bool {
    &&& now.len() == before.len()
    &&& forall|i: int|
        0 <= i < before.len() ==> {
            &&& (#[trigger] now[i]).movement_vector@ == social_sum(
                before,
                i,
                acted(a, b, i, before.len() as int),
            )
            &&& same_but_forces(before[i], now[i])
        }
}

/// Every person of `after` is the person of `before` with the company of
/// everybody else having acted on their sum of forces, in the order of the
/// list.
pub open spec fn socially_moved(before: Seq<Person>, after: Seq<Person>) -> bool {
    &&& after.len() == before.len()
    &&& forall|i: int|
        0 <= i < before.len() ==> {
            &&& (#[trigger] after[i]).movement_vector@ == social_sum(
                before,
                i,
                before.len() as int,
            )
            &&& same_but_forces(before[i], after[i])
        }
}

/// Lets the company of everybody act on everybody else: each pair of persons
/// is visited once, and each of the two is moved by what they think of the
/// other.
///
/// Positions and opinions are read and never written, so the order of the
/// visits shows only in the order in which the forces on one person add up:
/// that of the persons in the list.
pub fn social_movement(persons: &mut Vec<Person>)
    ensures
        socially_moved(old(persons)@, final(persons)@),
{
    let n: usize = persons.len();
    let mut a: usize = 0;
    proof {
        assert forall|i: int| 0 <= i < n implies (#[trigger] persons@[i]).movement_vector@
            == social_sum(persons@, i, acted(0, 1, i, n as int)) by {
            assert(social_sum(persons@, i, 0) == persons@[i].movement_vector@);
            if i == 0 {
                assert(social_sum(persons@, 0, 1) == social_sum(persons@, 0, 0));
            }
        }
    }
    while a < n
        invariant
            0 <= a <= n,
            n == old(persons).len(),
            half_swayed(old(persons)@, persons@, a as int, a + 1),
        decreases n - a,
    {
        let mut b: usize = a + 1;
        while b < n
            invariant
                0 <= a < b <= n,
                n == old(persons).len(),
                half_swayed(old(persons)@, persons@, a as int, b as int),
            decreases n - b,
        {
            let ghost before = persons@;
            let id_b: i32 = persons[b].id;
            let at_b: Vec2 = persons[b].position;
            sway(&mut persons[a], id_b, &at_b);
            let id_a: i32 = persons[a].id;
            let at_a: Vec2 = persons[a].position;
            sway(&mut persons[b], id_a, &at_a);
            proof {
                assert forall|i: int| 0 <= i < n implies {
                    &&& (#[trigger] persons@[i]).movement_vector@ == social_sum(
                        old(persons)@,
                        i,
                        acted(a as int, b + 1, i, n as int),
                    )
                    &&& same_but_forces(old(persons)@[i], persons@[i])
                } by {
                    assert(before[i].movement_vector@ == social_sum(
                        old(persons)@,
                        i,
                        acted(a as int, b as int, i, n as int),
                    ));
                    if i != a && i != b {
                        assert(persons@[i] == before[i]);
                    }
                }
            }
            b += 1;
        }
        proof {
            assert forall|i: int| 0 <= i < n implies (#[trigger] persons@[i]).movement_vector@
                == social_sum(old(persons)@, i, acted(a + 1, a + 2, i, n as int)) by {
                assert(persons@[i].movement_vector@ == social_sum(
                    old(persons)@,
                    i,
                    acted(a as int, n as int, i, n as int),
                ));
            }
        }
        a += 1;
    }
}

/// The sum of forces with the null sum replaced by a nudge, so that it has a
/// direction.
pub open spec fn nudged(v: (int, int)) -> (int, int) {
    if v == (0int, 0int) {
        (NUDGE as int, NUDGE as int)
    } else {
        v
    }
}

/// The velocity that a sum of forces comes to: its direction, at a speed
/// between `MIN_SPEED` and `MAX_SPEED`.
pub open spec fn heading(v: (int, int)) -> (int, int) {
    banded(nudged(v), MIN_SPEED as int, MAX_SPEED as int)
}

/// The step that a sum of forces comes to in `dt` microseconds: the heading
/// times the movement scalar, in tenths, times the time.
pub open spec fn resolved_step(v: (int, int), scalar: MovementScalar, dt: u64) -> (int, int) {
    point_scaled(heading(v), scalar.0 * dt, 10_000_000)
}

/// Whatever the forces add up to, the heading is never slower than `MIN_SPEED`
/// and never faster than `MAX_SPEED`.
pub proof fn lemma_heading_in_band(v: (int, int))
    requires
        in_world(v),
    ensures
        MIN_SPEED * MIN_SPEED <= norm_sq(heading(v)),
        norm_sq(heading(v)) <= MAX_SPEED * MAX_SPEED,
{
    lemma_banded_in_band(nudged(v), MIN_SPEED as int, MAX_SPEED as int);
}

/// The velocity that a sum of forces comes to.
pub fn resolve_heading(v: Vec2) -> (h: Vec2)
    ensures
        h@ == heading(v@),
        MIN_SPEED * MIN_SPEED <= norm_sq(h@) <= MAX_SPEED * MAX_SPEED,
{
    let pushed: Vec2 = if v.is_zero() {
        // This is here to give the null sum a direction before its length is clamped
        Vec2::new(NUDGE, NUDGE)
    } else {
        v
    };
    let _ = v.x();
    let _ = v.y();
    proof {
        lemma_heading_in_band(v@);
    }
    pushed.clamp_length(MIN_SPEED, MAX_SPEED)
}

/// `after` is `before` once the sum of forces was turned into the step of this
/// tick and the step taken.
pub open spec fn resolved(before: Person, after: Person, scalar: MovementScalar, dt: u64) -> bool {
    &&& after.movement_vector@ == resolved_step(before.movement_vector@, scalar, dt)
    &&& after.position@ == point_plus(before.position@, after.movement_vector@)
    &&& after == (Person {
        movement_vector: after.movement_vector,
        position: after.position,
        ..before
    })
}

/// Every person of `after` is the person of `before` with their step taken.
pub open spec fn movements_resolved(
    before: Seq<Person>,
    after: Seq<Person>,
    scalar: MovementScalar,
    dt: u64,
) -> bool {
    &&& after.len() == before.len()
    &&& forall|i: int| 0 <= i < before.len() ==> resolved(before[i], #[trigger] after[i], scalar, dt)
}

/// At the end of the tick, turns one person's sum of forces into the step of
/// this tick and takes it.
pub fn resolve_one(person: &mut Person, dt: u64, movt_scalar: &MovementScalar)
    ensures
        resolved(*old(person), *final(person), *movt_scalar, dt),
{
    let h: Vec2 = resolve_heading(person.movement_vector);
    proof {
        crate::vector::lemma_coordinates_within(h@, MAX_SPEED as int);
    }
    assert((movt_scalar.0 as u128) * (dt as u128) <= 0xFFFF_FFFF_FFFF_FFFF_FFFF_FFFF)
        by (nonlinear_arith)
        requires
            movt_scalar.0 <= 0xFFFF_FFFF,
            dt <= 0xFFFF_FFFF_FFFF_FFFF,
    ;
    let step: Vec2 = h.scaled_wide((movt_scalar.0 as u128) * (dt as u128), 10_000_000);
    person.movement_vector = step;
    person.position = person.position.plus(step);
}

/// At the end of the tick, applies everybody's sum of forces: it becomes the
/// step of this tick, and the person takes it.
pub fn resolve_movements(persons: &mut Vec<Person>, dt: u64, movt_scalar: &MovementScalar)
    ensures
        movements_resolved(old(persons)@, final(persons)@, *movt_scalar, dt),
{
    let mut i: usize = 0;
    while i < persons.len()
        invariant
            0 <= i <= persons.len(),
            persons.len() == old(persons).len(),
            forall|j: int| i <= j < persons.len() ==> persons[j] == old(persons)[j],
            forall|j: int|
                0 <= j < i ==> resolved(old(persons)[j], #[trigger] persons[j], *movt_scalar, dt),
        decreases persons.len() - i,
    {
        resolve_one(&mut persons[i], dt, movt_scalar);
        i += 1;
    }
}

proof fn lemma_product_floor(e: int, q: int, c: int)
    requires
        abs_int(e) <= c,
    ensures
        e * q >= -(c * abs_int(q)),
{
    assert(e * q >= -(c * abs_int(q))) by (nonlinear_arith)
        requires
            abs_int(e) <= c,
            abs_int(q) == q || abs_int(q) == -q,
            abs_int(q) >= 0,
            abs_int(e) == e || abs_int(e) == -e,
            abs_int(e) >= 0,
    ;
}

/// What rounding toward zero does to one coordinate: the quotient times the
/// divisor misses the dividend by less than the divisor, and is no longer.
proof fn lemma_trunc_remainder(x: int, a: int, b: int)
    requires
        a >= 0,
        b > 0,
    ensures
        abs_int(div_trunc(x * a, b) * b - x * a) <= b - 1,
        abs_int(div_trunc(x * a, b)) * b <= abs_int(x) * a,
{
    crate::vector::lemma_div_trunc_abs(x, a, b);
    crate::vector::lemma_floor_div(abs_int(x) * a, b);
    let t = div_trunc(x * a, b);
    assert(x >= 0 ==> x * a == abs_int(x) * a) by (nonlinear_arith)
        requires
            x >= 0 ==> abs_int(x) == x,
    ;
    assert(x < 0 ==> -(x * a) == abs_int(x) * a) by (nonlinear_arith)
        requires
            x < 0 ==> abs_int(x) == -x,
    ;
    assert(abs_int(x) * a >= 0) by (nonlinear_arith)
        requires
            abs_int(x) >= 0,
            a >= 0,
    ;
    if x >= 0 {
        assert(t == (abs_int(x) * a) / b);
    } else {
        assert(t == -((abs_int(x) * a) / b));
        assert(t * b == -(((abs_int(x) * a) / b) * b)) by (nonlinear_arith)
            requires
                t == -((abs_int(x) * a) / b),
        ;
    }
}

proof fn lemma_coordinate_product(t: int, w: int, e: int, a: int, b: int, q: int)
    requires
        e == t * b - w * a,
    ensures
        b * (t * q) == a * (w * q) + e * q,
{
    assert(b * (t * q) == (t * b) * q) by (nonlinear_arith);
    assert(a * (w * q) == (w * a) * q) by (nonlinear_arith);
    assert((t * b) * q == (w * a) * q + e * q) by (nonlinear_arith)
        requires
            t * b == w * a + e,
    ;
}

/// What rounding toward zero does to an inner product: it loses less than the
/// divisor for either coordinate of the other vector.
proof fn lemma_trunc_dot(w: (int, int), a: int, b: int, q: (int, int))
    requires
        a >= 0,
        b > 0,
    ensures
        b * dot((div_trunc(w.0 * a, b), div_trunc(w.1 * a, b)), q) >= a * dot(w, q) - (b - 1) * (
        abs_int(q.0) + abs_int(q.1)),
{
    let t0 = div_trunc(w.0 * a, b);
    let t1 = div_trunc(w.1 * a, b);
    lemma_trunc_remainder(w.0, a, b);
    lemma_trunc_remainder(w.1, a, b);
    let e0 = t0 * b - w.0 * a;
    let e1 = t1 * b - w.1 * a;
    lemma_product_floor(e0, q.0, b - 1);
    lemma_product_floor(e1, q.1, b - 1);
    lemma_coordinate_product(t0, w.0, e0, a, b, q.0);
    lemma_coordinate_product(t1, w.1, e1, a, b, q.1);
    assert(b * (t0 * q.0 + t1 * q.1) == b * (t0 * q.0) + b * (t1 * q.1)) by (nonlinear_arith);
    assert(a * (w.0 * q.0 + w.1 * q.1) == a * (w.0 * q.0) + a * (w.1 * q.1)) by (nonlinear_arith);
    assert((b - 1) * (abs_int(q.0) + abs_int(q.1)) == (b - 1) * abs_int(q.0) + (b - 1) * abs_int(
        q.1,
    )) by (nonlinear_arith);
}

/// The squared length of a vector scaled down and rounded toward zero.
proof fn lemma_trunc_length(h: (int, int), k: int, t: int, m: int)
    requires
        0 <= k <= t,
        t > 0,
        m >= 0,
        norm_sq(h) <= m * m,
    ensures
        t * norm_sq((div_trunc(h.0 * k, t), div_trunc(h.1 * k, t))) <= k * (m * m),
        abs_int(div_trunc(h.0 * k, t)) <= abs_int(h.0),
        abs_int(div_trunc(h.1 * k, t)) <= abs_int(h.1),
{
    let s0 = div_trunc(h.0 * k, t);
    let s1 = div_trunc(h.1 * k, t);
    lemma_trunc_remainder(h.0, k, t);
    lemma_trunc_remainder(h.1, k, t);
    crate::vector::lemma_square_abs(h.0);
    crate::vector::lemma_square_abs(h.1);
    crate::vector::lemma_square_abs(s0);
    crate::vector::lemma_square_abs(s1);
    let a0 = abs_int(s0);
    let a1 = abs_int(s1);
    let b0 = abs_int(h.0);
    let b1 = abs_int(h.1);
    assert(a0 <= b0 && t * (a0 * a0) <= k * (b0 * b0)) by (nonlinear_arith)
        requires
            a0 * t <= b0 * k,
            0 <= k <= t,
            t > 0,
            a0 >= 0,
            b0 >= 0,
    ;
    assert(a1 <= b1 && t * (a1 * a1) <= k * (b1 * b1)) by (nonlinear_arith)
        requires
            a1 * t <= b1 * k,
            0 <= k <= t,
            t > 0,
            a1 >= 0,
            b1 >= 0,
    ;
    assert(t * (a0 * a0 + a1 * a1) <= k * (m * m)) by (nonlinear_arith)
        requires
            t * (a0 * a0) <= k * (b0 * b0),
            t * (a1 * a1) <= k * (b1 * b1),
            b0 * b0 + b1 * b1 <= m * m,
            k >= 0,
    ;
}

/// Somebody whose forces point well enough at a spot comes strictly closer to
/// it by the step of the tick.
///
/// The spot is the origin.  The person stands seven world units from it or
/// more; the sum of forces is longer than `MAX_SPEED` and within a cone around
/// the way to the spot whose cosine is nine tenths; scalar times time comes to a
/// second at most, and to a microsecond at least, under which the step may be
/// too short to count.
pub proof fn lemma_step_draws_closer(p: (int, int), v: (int, int), scalar: MovementScalar, dt: u64)
    requires
        in_world(p),
        in_world(v),
        norm_sq(p) >= 7_000_000 * 7_000_000,
        norm_sq(v) > MAX_SPEED * MAX_SPEED,
        dot(v, point_negated(p)) > 0,
        100 * (dot(v, point_negated(p)) * dot(v, point_negated(p))) >= 81 * (norm_sq(v) * norm_sq(
            p,
        )),
        10 <= scalar.0 * dt <= 10_000_000,
    ensures
        norm_sq(point_plus(p, resolved_step(v, scalar, dt))) < norm_sq(p),
{
    let q = point_negated(p);
    let m = MAX_SPEED as int;
    let t = 10_000_000int;
    let k = scalar.0 * dt;
    let x = dot(v, q);
    let nq = norm_sq(p);
    let nv = norm_sq(v);
    let big = refined(v);
    let sv = sqrt_ceil(norm_sq(big) as nat) as int;
    let lq = sqrt_floor(nq as nat) as int;
    let q1 = abs_int(q.0) + abs_int(q.1);
    crate::vector::lemma_refined_length(v);
    crate::fixed::lemma_sqrt_ceil_brackets(norm_sq(big) as nat);
    crate::fixed::lemma_sqrt_floor_brackets(nq as nat);
    crate::vector::lemma_square_abs(p.0);
    crate::vector::lemma_square_abs(p.1);
    crate::vector::lemma_square_abs(q.0);
    crate::vector::lemma_square_abs(q.1);
    assert(norm_sq(q) == nq) by (nonlinear_arith)
        requires
            q.0 == -p.0,
            q.1 == -p.1,
            nq == p.0 * p.0 + p.1 * p.1,
            norm_sq(q) == q.0 * q.0 + q.1 * q.1,
    ;
    // how long the way to the spot is, and how long either coordinate of it
    assert(lq >= 7_000_000) by {
        if lq < 7_000_000 {
            assert((lq + 1) * (lq + 1) <= 7_000_000 * 7_000_000) by (nonlinear_arith)
                requires
                    0 <= lq + 1 <= 7_000_000,
            ;
        }
    }
    crate::vector::lemma_root_lt(abs_int(q.0), lq + 1);
    crate::vector::lemma_root_lt(abs_int(q.1), lq + 1);
    assert(q1 <= 2 * lq);
    // the heading is the sum of forces shrunk, and the step the heading scaled
    let h = shrunk(big, m);
    crate::vector::lemma_shrunk_within(big, m);
    assert(heading(v) == h);
    let s = (div_trunc(h.0 * k, t), div_trunc(h.1 * k, t));
    lemma_trunc_length(h, k, t, m);
    assert(resolved_step(v, scalar, dt) == s);
    // the heading points at the spot
    assert(sv > 1_000_000 * m) by {
        if sv <= 1_000_000 * m {
            assert(sv * sv <= (1_000_000 * m) * (1_000_000 * m)) by (nonlinear_arith)
                requires
                    0 <= sv <= 1_000_000 * m,
            ;
            assert(nv * (1_000_000 * 1_000_000) > (m * m) * (1_000_000 * 1_000_000))
                by (nonlinear_arith)
                requires
                    nv > m * m,
            ;
            assert((1_000_000 * m) * (1_000_000 * m) == (m * m) * (1_000_000 * 1_000_000))
                by (nonlinear_arith);
        }
    }
    lemma_trunc_dot(big, m, sv, q);
    assert(dot(big, q) == 1_000_000 * x) by (nonlinear_arith)
        requires
            big.0 == v.0 * 1_000_000,
            big.1 == v.1 * 1_000_000,
            x == v.0 * q.0 + v.1 * q.1,
            dot(big, q) == big.0 * q.0 + big.1 * q.1,
    ;
    let lhs = 9 * ((sv - 1) * lq);
    let rhs = 10 * (1_000_000 * x);
    assert(lhs * lhs <= rhs * rhs) by (nonlinear_arith)
        requires
            lhs == 9 * ((sv - 1) * lq),
            rhs == 10 * (1_000_000 * x),
            (sv - 1) * (sv - 1) <= nv * (1_000_000 * 1_000_000),
            lq * lq <= nq,
            100 * (x * x) >= 81 * (nv * nq),
            sv >= 1,
            lq >= 0,
            nv >= 0,
            nq >= 0,
    ;
    assert(lhs >= 0 && rhs >= 0) by (nonlinear_arith)
        requires
            lhs == 9 * ((sv - 1) * lq),
            rhs == 10 * (1_000_000 * x),
            sv >= 1,
            lq >= 0,
            x > 0,
    ;
    crate::vector::lemma_root_le(lhs, rhs);
    let hq = dot(h, q);
    assert(10 * hq >= 8 * (m * lq)) by (nonlinear_arith)
        requires
            sv * hq >= m * (1_000_000 * x) - (sv - 1) * q1,
            10 * (1_000_000 * x) >= 9 * ((sv - 1) * lq),
            q1 <= 2 * lq,
            sv > 1_000_000 * m,
            m == 6_500_000,
            lq >= 7_000_000,
    ;
    // and so does the step, which is short against the way
    lemma_trunc_dot(h, k, t, q);
    let sq = dot(s, q);
    let ns = norm_sq(s);
    assert(2 * sq > ns) by (nonlinear_arith)
        requires
            t * sq >= k * hq - (t - 1) * q1,
            10 * hq >= 8 * (m * lq),
            t * ns <= k * (m * m),
            q1 <= 2 * lq,
            lq >= 7_000_000,
            m == 6_500_000,
            t == 10_000_000,
            10 <= k <= t,
    ;
    let landed = (p.0 + s.0, p.1 + s.1);
    assert(norm_sq(landed) == nq - 2 * sq + ns) by (nonlinear_arith)
        requires
            landed.0 == p.0 + s.0,
            landed.1 == p.1 + s.1,
            q.0 == -p.0,
            q.1 == -p.1,
            sq == s.0 * q.0 + s.1 * q.1,
            ns == s.0 * s.0 + s.1 * s.1,
            nq == p.0 * p.0 + p.1 * p.1,
            norm_sq(landed) == landed.0 * landed.0 + landed.1 * landed.1,
    ;
    crate::vector::lemma_clamp_shortens(landed);
}

} // verus!
