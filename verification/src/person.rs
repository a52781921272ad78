//! A person: seven needs, a few likes and dislikes, and a place in the world.

use crate::building::{Building, BuildingType};
use crate::chance::Dice;
use crate::drag::{box_around, Interactable};
use crate::fixed::clamp_int;
use crate::movement::MovementDir;
use crate::timer::RepeatTimer;
use crate::vector::{dist_sq, Vec2};
use vstd::prelude::*;

verus! {

/// The highest score a need can have: a hundred points.
pub const NEED_MAX: u32 = 100_000;

/// Width of the box in which a click selects a person.
pub const SPRITE_WIDTH: i64 = 16_000_000;

/// Height of the box in which a click selects a person.
pub const SPRITE_HEIGHT: i64 = 23_000_000;

/// The distance below which a building applies its effect on a person.
pub const INTERACTION_DISTANCE: u64 = 20_000_000;

/// A person is born only while the registry holds fewer ids than this.
pub const POPULATION_CAP: usize = 2001;

/// What the odds of a decay step are counted out of.
pub const ODDS_OUT_OF: u32 = 1000;

/// Sport wears at a decay step seven times in ten.
pub const SPORT_ODDS: u32 = 700;

/// Creativity wears at a decay step sixty-eight times in a hundred.
pub const CREATION_ODDS: u32 = 680;

/// Entertainment wears at a decay step forty-five times in a hundred.
pub const ENTERTAINMENT_ODDS: u32 = 450;

/// Company wears at a decay step four times in ten.
pub const SOCIAL_ODDS: u32 = 400;

/// Health takes a blow at a decay step five times in a thousand.
pub const HEALTH_INCIDENT_ODDS: u32 = 5;

/// The ids handed out so far, in the order in which they were.
#[derive(Clone, Debug, Default)]
pub struct UsedPersons {
    pub list: Vec<i32>,
}

/// One simulated person.  Needs and satisfaction count thousandths of a point;
/// `movement_vector` is the sum of the forces of the tick under way, and after
/// the tick the step that was taken.
#[derive(Clone, Debug, Default)]
pub struct Person {
    pub id: i32,
    pub shelter: u32,
    pub hunger: u32,
    pub social: u32,
    pub entertained: u32,
    pub health: u32,
    pub sport: u32,
    pub creativity: u32,
    pub satisfaction: u32,
    // Idle movt direction
    pub movement_direction: MovementDir,
    pub movement_vector: Vec2,
    pub liked: Vec<i32>,
    pub disliked: Vec<i32>,
    pub interact: Interactable,
    pub position: Vec2,
}

/// What chance decided for one person at one decay step.
#[derive(Clone, Copy, Debug, Default, PartialEq, Eq, Structural)]
pub struct DecayDraws {
    pub needs_sport: bool,
    pub needs_creation: bool,
    pub needs_entertainment: bool,
    pub needs_social: bool,
    pub health_incident: bool,
}

/// A score held between nothing and `NEED_MAX`.
pub open spec fn clamped_score(val: int) -> u32 {
    clamp_int(val, 0, NEED_MAX as int) as u32
}

/// Each of the seven needs lies between nothing and a hundred points.
pub open spec fn needs_in_range(p: Person) -> bool {
    &&& p.shelter <= NEED_MAX
    &&& p.hunger <= NEED_MAX
    &&& p.social <= NEED_MAX
    &&& p.entertained <= NEED_MAX
    &&& p.health <= NEED_MAX
    &&& p.sport <= NEED_MAX
    &&& p.creativity <= NEED_MAX
}

/// The mean of the seven needs, rounded down.
pub open spec fn mean_of_needs(p: Person) -> u32 {
    ((p.shelter + p.hunger + p.health + p.entertained + p.sport + p.creativity + p.social)
        / 7) as u32
}

/// `old_score`, less `loss` where the loss `happens`.
pub open spec fn worn(old_score: u32, happens: bool, loss: int) -> u32 {
    if happens {
        clamped_score(old_score - loss)
    } else {
        old_score
    }
}

/// The person one decay step later: shelter and hunger always wear, the other
/// needs where chance has it so, and satisfaction is their new mean.
pub open spec fn decayed(p: Person, draws: DecayDraws) -> Person {
    let worn_out = Person {
        shelter: clamped_score(p.shelter - 1_000),
        hunger: clamped_score(p.hunger - 750),
        health: worn(p.health, draws.health_incident, 75_000),
        entertained: worn(p.entertained, draws.needs_entertainment, 1_000),
        sport: worn(p.sport, draws.needs_sport, 1_000),
        creativity: worn(p.creativity, draws.needs_creation, 1_000),
        social: worn(p.social, draws.needs_social, 1_000),
        ..p
    };
    Person { satisfaction: mean_of_needs(worn_out), ..worn_out }
}

/// `after` is `before` one decay step later, whatever chance decided.
pub open spec fn wears_to(before: Person, after: Person) -> bool {
    exists|draws: DecayDraws| after == #[trigger] decayed(before, draws)
}

/// Holds a score between nothing and a hundred points.
pub fn clamp_score(val: i64) -> (score: u32)
    ensures
        score == clamped_score(val as int),
        score <= NEED_MAX,
{
    if val < 0 {
        0
    } else if val > NEED_MAX as i64 {
        NEED_MAX
    } else {
        val as u32
    }
}

/// The mean of the person's seven needs, rounded down.
pub fn mean_needs(person: &Person) -> (mean: u32)
    ensures
        mean == mean_of_needs(*person),
        needs_in_range(*person) ==> mean <= NEED_MAX,
{
    let sum: u64 = person.shelter as u64 + person.hunger as u64 + person.health as u64
        + person.entertained as u64 + person.sport as u64 + person.creativity as u64
        + person.social as u64;
    (sum / 7) as u32
}

/// One decay step on one person, with what chance decided handed in.
pub fn decay(person: &mut Person, draws: &DecayDraws)
    ensures
        *final(person) == decayed(*old(person), *draws),
        needs_in_range(*old(person)) ==> needs_in_range(*final(person)),
{
    person.shelter = clamp_score(person.shelter as i64 - 1_000);
    person.hunger = clamp_score(person.hunger as i64 - 750);
    if draws.health_incident {
        person.health = clamp_score(person.health as i64 - 75_000);
    }
    if draws.needs_entertainment {
        person.entertained = clamp_score(person.entertained as i64 - 1_000);
    }
    if draws.needs_sport {
        person.sport = clamp_score(person.sport as i64 - 1_000);
    }
    if draws.needs_creation {
        person.creativity = clamp_score(person.creativity as i64 - 1_000);
    }
    if draws.needs_social {
        person.social = clamp_score(person.social as i64 - 1_000);
    }
    person.satisfaction = mean_needs(person);
}

/// Lets chance decide what wears at one decay step, each need at its own odds
/// out of `ODDS_OUT_OF`.
pub fn draw_decay(dice: &mut Dice) -> DecayDraws {
    let needs_sport: bool = dice.chance(SPORT_ODDS, ODDS_OUT_OF);
    let needs_creation: bool = dice.chance(CREATION_ODDS, ODDS_OUT_OF);
    let needs_entertainment: bool = dice.chance(ENTERTAINMENT_ODDS, ODDS_OUT_OF);
    let needs_social: bool = dice.chance(SOCIAL_ODDS, ODDS_OUT_OF);
    let health_incident: bool = dice.chance(HEALTH_INCIDENT_ODDS, ODDS_OUT_OF);
    DecayDraws { needs_sport, needs_creation, needs_entertainment, needs_social, health_incident }
}

/// Nobody whose needs were between nothing and a hundred points has a need
/// outside of that now.
pub open spec fn needs_kept(before: Seq<Person>, after: Seq<Person>) -> bool {
    &&& after.len() == before.len()
    &&& forall|i: int|
        0 <= i < before.len() && needs_in_range(before[i]) ==> needs_in_range(#[trigger] after[i])
}

/// Where the decay clock `fired`, every person of `after` is the person of
/// `before` one decay step later; where it did not, nobody has changed.
pub open spec fn scores_decreased(before: Seq<Person>, after: Seq<Person>, fired: bool) -> bool {
    &&& after.len() == before.len()
    &&& !fired ==> after == before
    &&& fired ==> forall|i: int| 0 <= i < before.len() ==> wears_to(before[i], #[trigger] after[i])
}

/// Advances the decay clock, and where it goes off lets every person's needs
/// wear by one step, chance deciding anew for each.
pub fn decrease_scores(
    persons: &mut Vec<Person>,
    dt: u64,
    update_timer: &mut RepeatTimer,
    dice: &mut Dice,
)
    ensures
        *final(update_timer) == old(update_timer).ticked(dt),
        scores_decreased(old(persons)@, final(persons)@, old(update_timer).fires(dt)),
        needs_kept(old(persons)@, final(persons)@),
        !old(update_timer).fires(dt) ==> *final(dice) == *old(dice),
{
    if update_timer.tick(dt) {
        let mut i: usize = 0;
        while i < persons.len()
            invariant
                0 <= i <= persons.len(),
                persons.len() == old(persons).len(),
                forall|j: int| i <= j < persons.len() ==> persons[j] == old(persons)[j],
                forall|j: int| 0 <= j < i ==> wears_to(old(persons)[j], #[trigger] persons[j]),
                forall|j: int|
                    0 <= j < i && needs_in_range(old(persons)[j]) ==> needs_in_range(
                        #[trigger] persons[j],
                    ),
            decreases persons.len() - i,
        {
            let draws: DecayDraws = draw_decay(dice);
            decay(&mut persons[i], &draws);
            assert(persons[i as int] == decayed(old(persons)[i as int], draws));
            i += 1;
        }
    }
}

/// A person as they come into the world: at the origin, in need of a roof,
/// knowing nobody.
pub open spec fn is_newborn(p: Person, id: i32) -> bool {
    &&& p.id == id
    &&& p.shelter == 10_000
    &&& p.hunger == 50_000
    &&& p.social == 75_000
    &&& p.entertained == 100_000
    &&& p.health == 100_000
    &&& p.sport == 100_000
    &&& p.creativity == 100_000
    &&& p.satisfaction == 50_000
    &&& p.movement_direction == MovementDir::PlusBoth
    &&& p.movement_vector@ == (0int, 0int)
    &&& p.liked@ == Seq::<i32>::empty()
    &&& p.disliked@ == Seq::<i32>::empty()
    &&& p.interact.bottom_left@ == (0int, 0int)
    &&& p.interact.top_right@ == (0int, 0int)
    &&& p.position@ == (0int, 0int)
}

/// The largest id of the list; the smallest `i32` for the empty list.
pub open spec fn largest(list: Seq<i32>) -> int
    decreases list.len(),
{
    if list.len() == 0 {
        i32::MIN as int
    } else {
        let rest = largest(list.drop_last());
        if list.last() > rest {
            list.last() as int
        } else {
            rest
        }
    }
}

/// The id that the next person gets: one more than the largest handed out,
/// and zero for the first.
pub open spec fn next_id(list: Seq<i32>) -> int {
    if list.len() == 0 {
        0
    } else {
        largest(list) + 1
    }
}

/// No id of the list exceeds `largest`, and a list that is not empty holds it.
pub proof fn lemma_largest(list: Seq<i32>)
    ensures
        forall|i: int| 0 <= i < list.len() ==> list[i] <= largest(list),
        list.len() > 0 ==> exists|i: int| 0 <= i < list.len() && list[i] == largest(list),
    decreases list.len(),
{
    if list.len() > 0 {
        let rest = list.drop_last();
        lemma_largest(rest);
        assert forall|i: int| 0 <= i < list.len() implies list[i] <= largest(list) by {
            if i < rest.len() {
                assert(rest[i] == list[i]);
            }
        }
        if list.last() > largest(rest) {
            assert(list[list.len() - 1] == largest(list));
        } else if rest.len() > 0 {
            let w = choose|i: int| 0 <= i < rest.len() && rest[i] == largest(rest);
            assert(list[w] == largest(list));
        } else {
            assert(list[list.len() - 1] == largest(list));
        }
    }
}

/// The next id has never been handed out before.
pub proof fn lemma_next_id_is_new(list: Seq<i32>)
    ensures
        forall|i: int| 0 <= i < list.len() ==> list[i] != next_id(list),
{
    lemma_largest(list);
}

/// A person as they come into the world.
pub fn newborn(id: i32) -> (person: Person)
    ensures
        is_newborn(person, id),
        needs_in_range(person),
{
    Person {
        id,
        shelter: 10_000,
        hunger: 50_000,
        social: 75_000,
        entertained: 100_000,
        health: 100_000,
        sport: 100_000,
        creativity: 100_000,
        satisfaction: 50_000,
        movement_direction: MovementDir::PlusBoth,
        movement_vector: Vec2::zero(),
        liked: Vec::new(),
        disliked: Vec::new(),
        interact: Interactable { bottom_left: Vec2::zero(), top_right: Vec2::zero() },
        position: Vec2::zero(),
    }
}

/// `after` is `before` with one newborn of the given id behind it.
pub open spec fn joined_by(before: Seq<Person>, after: Seq<Person>, id: i32) -> bool {
    &&& after.len() == before.len() + 1
    &&& forall|i: int| 0 <= i < before.len() ==> after[i] == before[i]
    &&& is_newborn(after[before.len() as int], id)
    &&& needs_in_range(after[before.len() as int])
}

/// Puts the first person, with id zero, into the world.
pub fn spawn_first_person(persons: &mut Vec<Person>, used_ids: &mut UsedPersons)
    ensures
        joined_by(old(persons)@, final(persons)@, 0),
        final(used_ids).list@ == old(used_ids).list@.push(0),
{
    persons.push(newborn(0));
    used_ids.list.push(0);
}

/// The id that the next person gets, where there is one left to give.
pub fn free_id(used_ids: &UsedPersons) -> (id: Option<i32>)
    ensures
        id matches Some(v) ==> v == next_id(used_ids.list@),
        id is None <==> next_id(used_ids.list@) > i32::MAX,
{
    if used_ids.list.len() == 0 {
        return Some(0);
    }
    let mut largest_id: i32 = i32::MIN;
    let mut k: usize = 0;
    while k < used_ids.list.len()
        invariant
            0 <= k <= used_ids.list.len(),
            largest_id == largest(used_ids.list@.take(k as int)),
        decreases used_ids.list.len() - k,
    {
        assert(used_ids.list@.take(k + 1).drop_last() =~= used_ids.list@.take(k as int));
        if used_ids.list[k] > largest_id {
            largest_id = used_ids.list[k];
        }
        k += 1;
    }
    assert(used_ids.list@.take(k as int) =~= used_ids.list@);
    if largest_id == i32::MAX {
        None
    } else {
        Some(largest_id + 1)
    }
}

/// Whether a tick of `dt` microseconds brings a new person into the world: the
/// spawn clock goes off, the population is below the cap, and an id is left.
pub open spec fn spawns(timer: RepeatTimer, dt: u64, list: Seq<i32>) -> bool {
    &&& timer.fires(dt)
    &&& list.len() < POPULATION_CAP
    &&& next_id(list) <= i32::MAX
}

/// Where a person `spawned`, they stand behind the others with the next id, which
/// the registry has taken down; where none did, nothing has changed.
pub open spec fn population_grown(
    before: Seq<Person>,
    ids_before: Seq<i32>,
    after: Seq<Person>,
    ids_after: Seq<i32>,
    spawned: bool,
) -> bool {
    if spawned {
        &&& joined_by(before, after, next_id(ids_before) as i32)
        &&& ids_after == ids_before.push(next_id(ids_before) as i32)
    } else {
        &&& after == before
        &&& ids_after == ids_before
    }
}

/// Advances the spawn clock, and where it goes off puts one more person into
/// the world, unless the population has reached the cap: such a birth is
/// dropped without a word.
pub fn spawn_person(
    persons: &mut Vec<Person>,
    used_ids: &mut UsedPersons,
    dt: u64,
    spawn_timer: &mut RepeatTimer,
)
    ensures
        *final(spawn_timer) == old(spawn_timer).ticked(dt),
        population_grown(
            old(persons)@,
            old(used_ids).list@,
            final(persons)@,
            final(used_ids).list@,
            spawns(*old(spawn_timer), dt, old(used_ids).list@),
        ),
{
    if spawn_timer.tick(dt) && used_ids.list.len() < POPULATION_CAP {
        match free_id(used_ids) {
            Some(available_id) => {
                persons.push(newborn(available_id));
                used_ids.list.push(available_id);
            },
            None => {},
        }
    }
}

/// The person's click box is the box of a sprite centred on the person.
pub open spec fn boxed(p: Person) -> bool {
    (p.interact.bottom_left@, p.interact.top_right@) == box_around(
        p.position@,
        (SPRITE_WIDTH as int, SPRITE_HEIGHT as int),
    )
}

/// Every person of `after` is the person of `before` with their click box
/// around them.
pub open spec fn boxes_follow(before: Seq<Person>, after: Seq<Person>) -> bool {
    &&& after.len() == before.len()
    &&& forall|i: int|
        0 <= i < before.len() ==> {
            &&& boxed(#[trigger] after[i])
            &&& after[i] == (Person { interact: after[i].interact, ..before[i] })
        }
}

/// Moves every person's click box to where the person stands.
pub fn hitbox_follow(persons: &mut Vec<Person>)
    ensures
        boxes_follow(old(persons)@, final(persons)@),
{
    let size: Vec2 = Vec2::new(SPRITE_WIDTH, SPRITE_HEIGHT);
    let mut i: usize = 0;
    while i < persons.len()
        invariant
            0 <= i <= persons.len(),
            persons.len() == old(persons).len(),
            size@ == (SPRITE_WIDTH as int, SPRITE_HEIGHT as int),
            forall|j: int| i <= j < persons.len() ==> persons[j] == old(persons)[j],
            forall|j: int|
                0 <= j < i ==> {
                    &&& boxed(#[trigger] persons[j])
                    &&& persons[j] == (Person { interact: persons[j].interact, ..old(persons)[j] })
                },
        decreases persons.len() - i,
    {
        let centre: Vec2 = persons[i].position;
        persons[i].interact = Interactable::around(&centre, &size);
        i += 1;
    }
}

/// Empties the world of persons and starts the ids over.
pub fn cleanup_persons(persons: &mut Vec<Person>, used_ids: &mut UsedPersons)
    ensures
        final(persons)@ == Seq::<Person>::empty(),
        final(used_ids).list@ == Seq::<i32>::empty(),
{
    persons.clear();
    used_ids.list.clear();
}

/// Points per second that a forum gives back to the lonely.
pub const FORUM_RATE: u32 = 5;

/// Points per second that a cinema gives back to the bored.
pub const CINEMA_RATE: u32 = 5;

/// Points per second that a hospital gives back to the unwell.
pub const HOSPITAL_RATE: u32 = 10;

/// Points per second that a pool gives back to the restless.
pub const POOL_RATE: u32 = 10;

/// Points per second that a restaurant gives back to the hungry.
pub const RESTAURANT_RATE: u32 = 50;

/// Points per second that a creative mart gives back to the uninspired.
pub const CREATIVE_RATE: u32 = 25;

/// What happens where several buildings of one kind stand within reach of a
/// person.
#[derive(Clone, Copy, Debug, PartialEq, Eq, Structural)]
pub enum Stacking {
    /// Each of them gives its share.
    Stack,
    /// They give together what one of them would.
    Once,
}

/// The kind answers no need.
pub open spec fn decorates(kind: BuildingType) -> bool {
    kind is Underground || kind is Tree || kind is Lamp
}

/// The building stands within reach of somebody at `at`.
pub open spec fn in_reach(at: (int, int), b: Building) -> bool {
    dist_sq(at, b.position@) < INTERACTION_DISTANCE * INTERACTION_DISTANCE
}

/// How many buildings of the given kind stand within reach of `at`.
pub open spec fn helpers(at: (int, int), kind: BuildingType, buildings: Seq<Building>) -> nat
    decreases buildings.len(),
{
    if buildings.len() == 0 {
        0
    } else {
        helpers(at, kind, buildings.drop_last()) + if buildings.last().kind == kind && in_reach(
            at,
            buildings.last(),
        ) {
            1nat
        } else {
            0nat
        }
    }
}

/// How many shares that many buildings give.
pub open spec fn doses(count: nat, policy: Stacking) -> nat {
    match policy {
        Stacking::Stack => count,
        Stacking::Once => if count > 0 {
            1
        } else {
            0
        },
    }
}

/// The thousandths of a point that `dt` microseconds give at `rate` points per
/// second, rounded down.
pub open spec fn gain(rate: int, dt: u64) -> int {
    rate * dt / 1000
}

/// A need after that many shares, never over a hundred points.
pub open spec fn refilled(need: u32, rate: int, dt: u64, shares: nat) -> u32 {
    if shares == 0 {
        need
    } else {
        clamped_score(need + shares * gain(rate, dt))
    }
}

/// The person after one share of what a building of the given kind gives: a
/// house restores shelter at once, the others give back their need at their
/// rate, and decoration gives nothing.
pub open spec fn dosed(p: Person, kind: BuildingType, dt: u64) -> Person {
    match kind {
        BuildingType::House => Person { shelter: NEED_MAX, ..p },
        BuildingType::Forum => Person {
            social: clamped_score(p.social + gain(FORUM_RATE as int, dt)),
            ..p
        },
        BuildingType::Cinema => Person {
            entertained: clamped_score(p.entertained + gain(CINEMA_RATE as int, dt)),
            ..p
        },
        BuildingType::Hospital => Person {
            health: clamped_score(p.health + gain(HOSPITAL_RATE as int, dt)),
            ..p
        },
        BuildingType::Pool => Person {
            sport: clamped_score(p.sport + gain(POOL_RATE as int, dt)),
            ..p
        },
        BuildingType::Restaurant => Person {
            hunger: clamped_score(p.hunger + gain(RESTAURANT_RATE as int, dt)),
            ..p
        },
        BuildingType::Creative => Person {
            creativity: clamped_score(p.creativity + gain(CREATIVE_RATE as int, dt)),
            ..p
        },
        _ => p,
    }
}

/// The person after one tick among the buildings: each need has had the shares
/// of the buildings within reach that answer it.
pub open spec fn replenished(
    p: Person,
    buildings: Seq<Building>,
    dt: u64,
    policy: Stacking,
) -> Person {
    let at = p.position@;
    Person {
        shelter: if helpers(at, BuildingType::House, buildings) > 0 {
            NEED_MAX
        } else {
            p.shelter
        },
        social: refilled(
            p.social,
            FORUM_RATE as int,
            dt,
            doses(helpers(at, BuildingType::Forum, buildings), policy),
        ),
        entertained: refilled(
            p.entertained,
            CINEMA_RATE as int,
            dt,
            doses(helpers(at, BuildingType::Cinema, buildings), policy),
        ),
        health: refilled(
            p.health,
            HOSPITAL_RATE as int,
            dt,
            doses(helpers(at, BuildingType::Hospital, buildings), policy),
        ),
        sport: refilled(
            p.sport,
            POOL_RATE as int,
            dt,
            doses(helpers(at, BuildingType::Pool, buildings), policy),
        ),
        hunger: refilled(
            p.hunger,
            RESTAURANT_RATE as int,
            dt,
            doses(helpers(at, BuildingType::Restaurant, buildings), policy),
        ),
        creativity: refilled(
            p.creativity,
            CREATIVE_RATE as int,
            dt,
            doses(helpers(at, BuildingType::Creative, buildings), policy),
        ),
        ..p
    }
}

/// One more share on top of `shares` of them.
proof fn lemma_refilled_again(need: u32, rate: int, dt: u64, shares: nat)
    requires
        rate >= 0,
    ensures
        clamped_score(refilled(need, rate, dt, shares) + gain(rate, dt)) == refilled(
            need,
            rate,
            dt,
            shares + 1,
        ),
        gain(rate, dt) >= 0,
{
    let g = gain(rate, dt);
    assert(rate * dt >= 0) by (nonlinear_arith)
        requires
            rate >= 0,
            dt >= 0,
    ;
    assert((shares + 1) * g == shares * g + g) by (nonlinear_arith);
    assert(shares * g >= 0) by (nonlinear_arith)
        requires
            shares >= 0,
            g >= 0,
    ;
}

/// A hundred points at most stay a hundred points at most, however many shares
/// come on top.
pub proof fn lemma_replenished_in_range(p: Person, buildings: Seq<Building>, dt: u64, policy: Stacking)
    requires
        needs_in_range(p),
    ensures
        needs_in_range(replenished(p, buildings, dt, policy)),
{
}

fn refill(need: u32, rate: u32, dt: u64) -> (score: u32)
    ensures
        score == clamped_score(need + gain(rate as int, dt)),
{
    assert((rate as u128) * (dt as u128) <= 0xFFFF_FFFF * 0xFFFF_FFFF_FFFF_FFFF) by (nonlinear_arith)
        requires
            rate <= 0xFFFF_FFFF,
            dt <= 0xFFFF_FFFF_FFFF_FFFF,
    ;
    let won: u128 = (rate as u128) * (dt as u128) / 1000;
    let sum: u128 = need as u128 + won;
    if sum > NEED_MAX as u128 {
        NEED_MAX
    } else {
        sum as u32
    }
}

/// Gives the person one share of what a building of the given kind gives.
pub fn replenish(person: &mut Person, b_type: BuildingType, dt: u64)
    ensures
        *final(person) == dosed(*old(person), b_type, dt),
{
    match b_type {
        BuildingType::House => person.shelter = NEED_MAX,
        BuildingType::Forum => {
            person.social = refill(person.social, FORUM_RATE, dt);
        },
        BuildingType::Cinema => {
            person.entertained = refill(person.entertained, CINEMA_RATE, dt);
        },
        BuildingType::Hospital => {
            person.health = refill(person.health, HOSPITAL_RATE, dt);
        },
        BuildingType::Pool => {
            person.sport = refill(person.sport, POOL_RATE, dt);
        },
        BuildingType::Restaurant => {
            person.hunger = refill(person.hunger, RESTAURANT_RATE, dt);
        },
        BuildingType::Creative => {
            person.creativity = refill(person.creativity, CREATIVE_RATE, dt);
        },
        _ => {},
    }
}

/// Which of the seven kinds that answer a need have been met within reach.
struct Met {
    house: bool,
    forum: bool,
    cinema: bool,
    hospital: bool,
    pool: bool,
    restaurant: bool,
    creative: bool,
}

impl Met {
    spec fn of(self, kind: BuildingType) -> bool {
        match kind {
            BuildingType::House => self.house,
            BuildingType::Forum => self.forum,
            BuildingType::Cinema => self.cinema,
            BuildingType::Hospital => self.hospital,
            BuildingType::Pool => self.pool,
            BuildingType::Restaurant => self.restaurant,
            BuildingType::Creative => self.creative,
            _ => false,
        }
    }

    spec fn counts(self, at: (int, int), seen: Seq<Building>) -> bool {
        &&& self.house == (helpers(at, BuildingType::House, seen) > 0)
        &&& self.forum == (helpers(at, BuildingType::Forum, seen) > 0)
        &&& self.cinema == (helpers(at, BuildingType::Cinema, seen) > 0)
        &&& self.hospital == (helpers(at, BuildingType::Hospital, seen) > 0)
        &&& self.pool == (helpers(at, BuildingType::Pool, seen) > 0)
        &&& self.restaurant == (helpers(at, BuildingType::Restaurant, seen) > 0)
        &&& self.creative == (helpers(at, BuildingType::Creative, seen) > 0)
    }

    fn get(&self, kind: BuildingType) -> (met: bool)
        ensures
            met == self.of(kind),
    {
        match kind {
            BuildingType::House => self.house,
            BuildingType::Forum => self.forum,
            BuildingType::Cinema => self.cinema,
            BuildingType::Hospital => self.hospital,
            BuildingType::Pool => self.pool,
            BuildingType::Restaurant => self.restaurant,
            BuildingType::Creative => self.creative,
            _ => false,
        }
    }

    fn mark(&mut self, kind: BuildingType)
        ensures
            final(self).house == (old(self).house || kind is House),
            final(self).forum == (old(self).forum || kind is Forum),
            final(self).cinema == (old(self).cinema || kind is Cinema),
            final(self).hospital == (old(self).hospital || kind is Hospital),
            final(self).pool == (old(self).pool || kind is Pool),
            final(self).restaurant == (old(self).restaurant || kind is Restaurant),
            final(self).creative == (old(self).creative || kind is Creative),
    {
        match kind {
            BuildingType::House => self.house = true,
            BuildingType::Forum => self.forum = true,
            BuildingType::Cinema => self.cinema = true,
            BuildingType::Hospital => self.hospital = true,
            BuildingType::Pool => self.pool = true,
            BuildingType::Restaurant => self.restaurant = true,
            BuildingType::Creative => self.creative = true,
            _ => {},
        }
    }
}

/// What one more building within reach, or out of it, does to the shares of
/// one need.
proof fn lemma_one_more_helper(need: u32, rate: int, dt: u64, count: nat, hit: bool, policy: Stacking)
    requires
        rate >= 0,
    ensures
        refilled(
            need,
            rate,
            dt,
            doses(
                if hit {
                    count + 1
                } else {
                    count
                },
                policy,
            ),
        ) == if hit && (policy is Stack || count == 0) {
            clamped_score(refilled(need, rate, dt, doses(count, policy)) + gain(rate, dt))
        } else {
            refilled(need, rate, dt, doses(count, policy))
        },
{
    if hit {
        match policy {
            Stacking::Stack => {
                lemma_refilled_again(need, rate, dt, count);
            },
            Stacking::Once => {
                if count == 0 {
                    lemma_refilled_again(need, rate, dt, 0);
                }
            },
        }
    }
}

/// Whether a building gives its share to somebody at `at` who has met the
/// buildings of `seen` before it.
pub open spec fn gives_share(
    at: (int, int),
    seen: Seq<Building>,
    b: Building,
    policy: Stacking,
) -> bool {
    in_reach(at, b) && (policy is Stack || helpers(at, b.kind, seen) == 0)
}

/// A person who has met the buildings of `seen` meets one more.
proof fn lemma_meets_one_more(p: Person, seen: Seq<Building>, b: Building, dt: u64, policy: Stacking)
    ensures
        replenished(p, seen.push(b), dt, policy) == if gives_share(p.position@, seen, b, policy) {
            dosed(replenished(p, seen, dt, policy), b.kind, dt)
        } else {
            replenished(p, seen, dt, policy)
        },
{
    let at = p.position@;
    let next = seen.push(b);
    assert(next.drop_last() =~= seen);
    assert(next.last() == b);
    let near = in_reach(at, b);
    assert(helpers(at, BuildingType::House, next) == helpers(at, BuildingType::House, seen) + if b.kind
        is House && near {
        1nat
    } else {
        0nat
    });
    lemma_one_more_helper(
        p.social,
        FORUM_RATE as int,
        dt,
        helpers(at, BuildingType::Forum, seen),
        b.kind is Forum && near,
        policy,
    );
    lemma_one_more_helper(
        p.entertained,
        CINEMA_RATE as int,
        dt,
        helpers(at, BuildingType::Cinema, seen),
        b.kind is Cinema && near,
        policy,
    );
    lemma_one_more_helper(
        p.health,
        HOSPITAL_RATE as int,
        dt,
        helpers(at, BuildingType::Hospital, seen),
        b.kind is Hospital && near,
        policy,
    );
    lemma_one_more_helper(
        p.sport,
        POOL_RATE as int,
        dt,
        helpers(at, BuildingType::Pool, seen),
        b.kind is Pool && near,
        policy,
    );
    lemma_one_more_helper(
        p.hunger,
        RESTAURANT_RATE as int,
        dt,
        helpers(at, BuildingType::Restaurant, seen),
        b.kind is Restaurant && near,
        policy,
    );
    lemma_one_more_helper(
        p.creativity,
        CREATIVE_RATE as int,
        dt,
        helpers(at, BuildingType::Creative, seen),
        b.kind is Creative && near,
        policy,
    );
}

proof fn lemma_met_of(met: Met, at: (int, int), seen: Seq<Building>, kind: BuildingType)
    requires
        met.counts(at, seen),
    ensures
        decorates(kind) || met.of(kind) == (helpers(at, kind, seen) > 0),
        decorates(kind) ==> forall|p: Person, dt: u64| #[trigger] dosed(p, kind, dt) == p,
{
}

proof fn lemma_met_one_more(met: Met, after: Met, at: (int, int), seen: Seq<Building>, b: Building)
    requires
        met.counts(at, seen),
        after.house == (met.house || (in_reach(at, b) && b.kind is House)),
        after.forum == (met.forum || (in_reach(at, b) && b.kind is Forum)),
        after.cinema == (met.cinema || (in_reach(at, b) && b.kind is Cinema)),
        after.hospital == (met.hospital || (in_reach(at, b) && b.kind is Hospital)),
        after.pool == (met.pool || (in_reach(at, b) && b.kind is Pool)),
        after.restaurant == (met.restaurant || (in_reach(at, b) && b.kind is Restaurant)),
        after.creative == (met.creative || (in_reach(at, b) && b.kind is Creative)),
    ensures
        after.counts(at, seen.push(b)),
{
    let next = seen.push(b);
    assert(next.drop_last() =~= seen);
    assert(next.last() == b);
}

/// Lets every building within reach of one person give what it gives.
pub fn increase_one(person: &mut Person, buildings: &Vec<Building>, dt: u64, policy: Stacking)
    ensures
        *final(person) == replenished(*old(person), buildings@, dt, policy),
        needs_in_range(*old(person)) ==> needs_in_range(*final(person)),
{
    let mut met = Met {
        house: false,
        forum: false,
        cinema: false,
        hospital: false,
        pool: false,
        restaurant: false,
        creative: false,
    };
    let mut k: usize = 0;
    while k < buildings.len()
        invariant
            0 <= k <= buildings.len(),
            met.counts(old(person).position@, buildings@.take(k as int)),
            *person == replenished(*old(person), buildings@.take(k as int), dt, policy),
        decreases buildings.len() - k,
    {
        let ghost seen = buildings@.take(k as int);
        let ghost met_before = met;
        proof {
            assert(buildings@.take(k + 1) =~= seen.push(buildings@[k as int]));
            lemma_meets_one_more(*old(person), seen, buildings@[k as int], dt, policy);
        }
        let kind: BuildingType = buildings[k].kind;
        let near: bool = person.position.distance_squared(&buildings[k].position) < (
        INTERACTION_DISTANCE as u128) * (INTERACTION_DISTANCE as u128);
        if near {
            let again: bool = met.get(kind);
            let gives: bool = match policy {
                Stacking::Stack => true,
                Stacking::Once => !again,
            };
            proof {
                lemma_met_of(met, old(person).position@, seen, kind);
                assert(person.position@ == old(person).position@);
            }
            if gives {
                replenish(person, kind, dt);
            }
            met.mark(kind);
        }
        proof {
            lemma_met_one_more(met_before, met, old(person).position@, seen, buildings@[k as int]);
        }
        k += 1;
    }
    proof {
        assert(buildings@.take(k as int) =~= buildings@);
        if needs_in_range(*old(person)) {
            lemma_replenished_in_range(*old(person), buildings@, dt, policy);
        }
    }
}

/// Every person of `after` is the person of `before` after one tick among the
/// buildings.
pub open spec fn scores_increased(
    before: Seq<Person>,
    after: Seq<Person>,
    buildings: Seq<Building>,
    dt: u64,
    policy: Stacking,
) -> bool {
    &&& after.len() == before.len()
    &&& forall|i: int|
        0 <= i < before.len() ==> #[trigger] after[i] == replenished(
            before[i],
            buildings,
            dt,
            policy,
        )
}

/// Lets every building give what it gives to everybody within its reach.
pub fn increase_scores(
    persons: &mut Vec<Person>,
    buildings: &Vec<Building>,
    dt: u64,
    policy: Stacking,
)
    ensures
        scores_increased(old(persons)@, final(persons)@, buildings@, dt, policy),
        needs_kept(old(persons)@, final(persons)@),
{
    let mut i: usize = 0;
    while i < persons.len()
        invariant
            0 <= i <= persons.len(),
            persons.len() == old(persons).len(),
            forall|j: int| i <= j < persons.len() ==> persons[j] == old(persons)[j],
            forall|j: int|
                0 <= j < i ==> #[trigger] persons[j] == replenished(
                    old(persons)[j],
                    buildings@,
                    dt,
                    policy,
                ),
            forall|j: int|
                0 <= j < i && needs_in_range(old(persons)[j]) ==> needs_in_range(
                    #[trigger] persons[j],
                ),
        decreases persons.len() - i,
    {
        increase_one(&mut persons[i], buildings, dt, policy);
        i += 1;
    }
}

} // verus!
