//! Buildings: their kinds and footprints, when a new one may be placed, and how
//! a pile of them is pulled apart.

use crate::drag::{box_around, Draggable, Interactable};
use crate::timer::Cooldown;
use crate::vector::{abs_int, clamp_coord, dist_sq, in_world, point_scaled, Vec2, COORD_LIMIT};
use vstd::prelude::*;

verus! {

/// The distance below which two buildings count as stacked: thirty world units.
pub const MIN_DISTANCE: u64 = 30_000_000;

/// What a building is.  The first seven kinds each answer one need; the last
/// three are decoration.
#[derive(Clone, Copy, Debug, PartialEq, Eq, Structural)]
pub enum BuildingType {
    House,
    Forum,
    Cinema,
    Hospital,
    Pool,
    Restaurant,
    Creative,
    Underground,
    Tree,
    Lamp,
}

/// Width and height of a building's footprint, by kind.
pub open spec fn footprint(kind: BuildingType) -> (int, int) {
    match kind {
        BuildingType::House => (48_000_000, 48_000_000),
        BuildingType::Forum => (80_000_000, 96_000_000),
        BuildingType::Cinema => (48_000_000, 42_000_000),
        BuildingType::Hospital => (48_000_000, 96_000_000),
        BuildingType::Pool => (64_000_000, 54_000_000),
        BuildingType::Restaurant => (64_000_000, 48_000_000),
        BuildingType::Creative => (68_000_000, 42_000_000),
        BuildingType::Underground => (32_000_000, 48_000_000),
        BuildingType::Tree => (32_000_000, 48_000_000),
        BuildingType::Lamp => (10_000_000, 46_000_000),
    }
}

/// Half the width of a footprint: how far de-stacking moves a building.
pub open spec fn half_width(kind: BuildingType) -> int {
    footprint(kind).0 / 2
}

/// One placed structure.
#[derive(Clone, Copy, Debug)]
pub struct Building {
    pub kind: BuildingType,
    pub position: Vec2,
    pub draggable: Draggable,
}

/// Width and height of a building's footprint, by kind.
pub fn get_size_from_type(b_type: &BuildingType) -> (size: Vec2)
    ensures
        size@ == footprint(*b_type),
{
    match b_type {
        BuildingType::House => Vec2::new(48_000_000, 48_000_000),
        BuildingType::Forum => Vec2::new(80_000_000, 96_000_000),
        BuildingType::Cinema => Vec2::new(48_000_000, 42_000_000),
        BuildingType::Hospital => Vec2::new(48_000_000, 96_000_000),
        BuildingType::Pool => Vec2::new(64_000_000, 54_000_000),
        BuildingType::Restaurant => Vec2::new(64_000_000, 48_000_000),
        BuildingType::Creative => Vec2::new(68_000_000, 42_000_000),
        BuildingType::Underground => Vec2::new(32_000_000, 48_000_000),
        BuildingType::Tree => Vec2::new(32_000_000, 48_000_000),
        BuildingType::Lamp => Vec2::new(10_000_000, 46_000_000),
    }
}

/// Which kinds may be placed right now; what the status line shows.
#[derive(Clone, Copy, Debug, Default, PartialEq, Eq, Structural)]
pub struct BuildingAvailable {
    pub house: bool,
    pub forum: bool,
    pub cinema: bool,
    pub hospital: bool,
    pub pool: bool,
    pub restaurant: bool,
    pub creative: bool,
}

/// The wait of each kind that has one.  Trees and lamps have none.
#[derive(Clone, Copy, Debug, PartialEq, Eq, Structural)]
pub struct BuildingTimers {
    pub house: Cooldown,
    pub forum: Cooldown,
    pub cinema: Cooldown,
    pub hospital: Cooldown,
    pub pool: Cooldown,
    pub restaurant: Cooldown,
    pub creative: Cooldown,
}

/// The placements asked for during one tick, by kind.
#[derive(Clone, Copy, Debug, Default, PartialEq, Eq, Structural)]
pub struct PlacementKeys {
    pub house: bool,
    pub forum: bool,
    pub cinema: bool,
    pub hospital: bool,
    pub pool: bool,
    pub restaurant: bool,
    pub creative: bool,
    pub tree: bool,
    pub lamp: bool,
}

/// A wait after one tick in which a placement was or was not asked for.
pub open spec fn waited(c: Cooldown, dt: u64, asked: bool) -> Cooldown {
    if asked {
        c.ticked(dt).placed()
    } else {
        c.ticked(dt)
    }
}

/// Whether a placement asked for during this tick goes through.
pub open spec fn grants(c: Cooldown, dt: u64, asked: bool) -> bool {
    asked && c.ticked(dt).available
}

/// The kind, if the placement goes through.
pub open spec fn granted(yes: bool, kind: BuildingType) -> Seq<BuildingType> {
    if yes {
        seq![kind]
    } else {
        Seq::empty()
    }
}

/// The kinds placed during one tick, in the order in which they are.
pub open spec fn placements(timers: BuildingTimers, keys: PlacementKeys, dt: u64) -> Seq<
    BuildingType,
> {
    granted(grants(timers.house, dt, keys.house), BuildingType::House) + granted(
        grants(timers.forum, dt, keys.forum),
        BuildingType::Forum,
    ) + granted(grants(timers.cinema, dt, keys.cinema), BuildingType::Cinema) + granted(
        grants(timers.hospital, dt, keys.hospital),
        BuildingType::Hospital,
    ) + granted(grants(timers.pool, dt, keys.pool), BuildingType::Pool) + granted(
        grants(timers.restaurant, dt, keys.restaurant),
        BuildingType::Restaurant,
    ) + granted(grants(timers.creative, dt, keys.creative), BuildingType::Creative) + granted(
        keys.tree,
        BuildingType::Tree,
    ) + granted(keys.lamp, BuildingType::Lamp)
}

/// A building as it is when placed: its lower left corner on the origin, not
/// yet dragged.
pub open spec fn is_fresh(b: Building, kind: BuildingType) -> bool {
    &&& b.kind == kind
    &&& b.position@ == point_scaled(footprint(kind), 1, 2)
    &&& b.draggable.interact.bottom_left@ == (0int, 0int)
    &&& b.draggable.interact.top_right@ == footprint(kind)
    &&& !b.draggable.being_dragged
}

/// `after` is `before` with one fresh building of each of `kinds` behind it.
pub open spec fn appended(before: Seq<Building>, after: Seq<Building>, kinds: Seq<BuildingType>) -> bool {
    &&& after.len() == before.len() + kinds.len()
    &&& forall|i: int| 0 <= i < before.len() ==> after[i] == before[i]
    &&& forall|i: int| 0 <= i < kinds.len() ==> is_fresh(#[trigger] after[before.len() + i], kinds[i])
}

proof fn lemma_appended_twice(
    a: Seq<Building>,
    b: Seq<Building>,
    c: Seq<Building>,
    first: Seq<BuildingType>,
    second: Seq<BuildingType>,
)
    requires
        appended(a, b, first),
        appended(b, c, second),
    ensures
        appended(a, c, first + second),
{
    assert forall|i: int| 0 <= i < (first + second).len() implies is_fresh(
        #[trigger] c[a.len() + i],
        (first + second)[i],
    ) by {
        if i < first.len() {
            assert(c[a.len() + i] == b[a.len() + i]);
        } else {
            assert(c[b.len() + (i - first.len())] == c[a.len() + i]);
        }
    }
}

impl BuildingTimers {
    /// Every wait at its start: eleven seconds for a house, up to a hundred and
    /// nine for a pool.
    pub fn new() -> (timers: BuildingTimers)
        ensures
            timers == (BuildingTimers {
                house: Cooldown { duration: 11_000_000, elapsed: 0, available: false },
                forum: Cooldown { duration: 55_000_000, elapsed: 0, available: false },
                cinema: Cooldown { duration: 99_000_000, elapsed: 0, available: false },
                hospital: Cooldown { duration: 80_000_000, elapsed: 0, available: false },
                pool: Cooldown { duration: 109_000_000, elapsed: 0, available: false },
                restaurant: Cooldown { duration: 27_000_000, elapsed: 0, available: false },
                creative: Cooldown { duration: 66_000_000, elapsed: 0, available: false },
            }),
    {
        BuildingTimers {
            house: Cooldown::from_micros(11_000_000),
            forum: Cooldown::from_micros(55_000_000),
            cinema: Cooldown::from_micros(99_000_000),
            hospital: Cooldown::from_micros(80_000_000),
            pool: Cooldown::from_micros(109_000_000),
            restaurant: Cooldown::from_micros(27_000_000),
            creative: Cooldown::from_micros(66_000_000),
        }
    }

    /// Which kinds may be placed.
    pub open spec fn availability(self) -> BuildingAvailable {
        BuildingAvailable {
            house: self.house.available,
            forum: self.forum.available,
            cinema: self.cinema.available,
            hospital: self.hospital.available,
            pool: self.pool.available,
            restaurant: self.restaurant.available,
            creative: self.creative.available,
        }
    }

    /// Every wait after one tick with the given placements asked for.
    pub open spec fn stepped(self, keys: PlacementKeys, dt: u64) -> BuildingTimers {
        BuildingTimers {
            house: waited(self.house, dt, keys.house),
            forum: waited(self.forum, dt, keys.forum),
            cinema: waited(self.cinema, dt, keys.cinema),
            hospital: waited(self.hospital, dt, keys.hospital),
            pool: waited(self.pool, dt, keys.pool),
            restaurant: waited(self.restaurant, dt, keys.restaurant),
            creative: waited(self.creative, dt, keys.creative),
        }
    }
}

/// Places a building of the given kind at the default spot.
pub fn spawn_building(b_type: BuildingType, buildings: &mut Vec<Building>)
    ensures
        appended(old(buildings)@, final(buildings)@, seq![b_type]),
{
    let top_right: Vec2 = get_size_from_type(&b_type);
    buildings.push(
        Building {
            kind: b_type,
            position: top_right.scaled(1, 2),
            draggable: Draggable {
                interact: Interactable { bottom_left: Vec2::zero(), top_right },
                being_dragged: false,
            },
        },
    );
    assert(buildings@[old(buildings)@.len() + 0int] == buildings@.last());
}

fn serve(
    cooldown: &mut Cooldown,
    dt: u64,
    asked: bool,
    kind: BuildingType,
    buildings: &mut Vec<Building>,
)
    ensures
        *final(cooldown) == waited(*old(cooldown), dt, asked),
        appended(
            old(buildings)@,
            final(buildings)@,
            granted(grants(*old(cooldown), dt, asked), kind),
        ),
{
    cooldown.tick(dt);
    if asked {
        if cooldown.place() {
            spawn_building(kind, buildings);
        }
    }
}

fn plant(asked: bool, kind: BuildingType, buildings: &mut Vec<Building>)
    ensures
        appended(old(buildings)@, final(buildings)@, granted(asked, kind)),
{
    if asked {
        spawn_building(kind, buildings);
    }
}

/// One tick of building placement: every wait advances, and each placement
/// asked for goes through where its kind is available, using the availability
/// up.  Trees and lamps wait for nothing.
pub fn trigger_spawn(
    buildings: &mut Vec<Building>,
    keys: &PlacementKeys,
    dt: u64,
    available: &mut BuildingAvailable,
    timers: &mut BuildingTimers,
)
    ensures
        *final(timers) == old(timers).stepped(*keys, dt),
        *final(available) == final(timers).availability(),
        appended(old(buildings)@, final(buildings)@, placements(*old(timers), *keys, dt)),
{
    let ghost s0 = buildings@;
    let ghost t0 = *timers;
    serve(&mut timers.house, dt, keys.house, BuildingType::House, buildings);
    let ghost s1 = buildings@;
    let ghost k1 = granted(grants(t0.house, dt, keys.house), BuildingType::House);
    serve(&mut timers.forum, dt, keys.forum, BuildingType::Forum, buildings);
    let ghost s2 = buildings@;
    let ghost k2 = k1 + granted(grants(t0.forum, dt, keys.forum), BuildingType::Forum);
    proof {
        lemma_appended_twice(s0, s1, s2, k1, granted(grants(t0.forum, dt, keys.forum), BuildingType::Forum));
    }
    serve(&mut timers.cinema, dt, keys.cinema, BuildingType::Cinema, buildings);
    let ghost s3 = buildings@;
    let ghost k3 = k2 + granted(grants(t0.cinema, dt, keys.cinema), BuildingType::Cinema);
    proof {
        lemma_appended_twice(s0, s2, s3, k2, granted(grants(t0.cinema, dt, keys.cinema), BuildingType::Cinema));
    }
    serve(&mut timers.hospital, dt, keys.hospital, BuildingType::Hospital, buildings);
    let ghost s4 = buildings@;
    let ghost k4 = k3 + granted(grants(t0.hospital, dt, keys.hospital), BuildingType::Hospital);
    proof {
        lemma_appended_twice(s0, s3, s4, k3, granted(grants(t0.hospital, dt, keys.hospital), BuildingType::Hospital));
    }
    serve(&mut timers.pool, dt, keys.pool, BuildingType::Pool, buildings);
    let ghost s5 = buildings@;
    let ghost k5 = k4 + granted(grants(t0.pool, dt, keys.pool), BuildingType::Pool);
    proof {
        lemma_appended_twice(s0, s4, s5, k4, granted(grants(t0.pool, dt, keys.pool), BuildingType::Pool));
    }
    serve(&mut timers.restaurant, dt, keys.restaurant, BuildingType::Restaurant, buildings);
    let ghost s6 = buildings@;
    let ghost k6 = k5 + granted(grants(t0.restaurant, dt, keys.restaurant), BuildingType::Restaurant);
    proof {
        lemma_appended_twice(s0, s5, s6, k5, granted(grants(t0.restaurant, dt, keys.restaurant), BuildingType::Restaurant));
    }
    serve(&mut timers.creative, dt, keys.creative, BuildingType::Creative, buildings);
    let ghost s7 = buildings@;
    let ghost k7 = k6 + granted(grants(t0.creative, dt, keys.creative), BuildingType::Creative);
    proof {
        lemma_appended_twice(s0, s6, s7, k6, granted(grants(t0.creative, dt, keys.creative), BuildingType::Creative));
    }
    plant(keys.tree, BuildingType::Tree, buildings);
    let ghost s8 = buildings@;
    let ghost k8 = k7 + granted(keys.tree, BuildingType::Tree);
    proof {
        lemma_appended_twice(s0, s7, s8, k7, granted(keys.tree, BuildingType::Tree));
    }
    plant(keys.lamp, BuildingType::Lamp, buildings);
    proof {
        lemma_appended_twice(s0, s8, buildings@, k8, granted(keys.lamp, BuildingType::Lamp));
    }
    available.house = timers.house.available;
    available.forum = timers.forum.available;
    available.cinema = timers.cinema.available;
    available.hospital = timers.hospital.available;
    available.pool = timers.pool.available;
    available.restaurant = timers.restaurant.available;
    available.creative = timers.creative.available;
}

/// The building's click box is its footprint centred on the building.
pub open spec fn boxed(b: Building) -> bool {
    (b.draggable.interact.bottom_left@, b.draggable.interact.top_right@) == box_around(
        b.position@,
        footprint(b.kind),
    )
}

/// Every building of `after` is the building of `before` with its click box
/// around it.
pub open spec fn boxes_follow(before: Seq<Building>, after: Seq<Building>) -> bool {
    &&& after.len() == before.len()
    &&& forall|i: int|
        0 <= i < before.len() ==> {
            &&& boxed(#[trigger] after[i])
            &&& after[i] == (Building {
                draggable: Draggable {
                    interact: after[i].draggable.interact,
                    ..before[i].draggable
                },
                ..before[i]
            })
        }
}

/// Moves every building's click box to where the building stands.
pub fn hitbox_follow(buildings: &mut Vec<Building>)
    ensures
        boxes_follow(old(buildings)@, final(buildings)@),
{
    let mut i: usize = 0;
    while i < buildings.len()
        invariant
            0 <= i <= buildings.len(),
            buildings.len() == old(buildings).len(),
            forall|j: int| i <= j < buildings.len() ==> buildings[j] == old(buildings)[j],
            forall|j: int|
                0 <= j < i ==> {
                    &&& boxed(#[trigger] buildings[j])
                    &&& buildings[j] == (Building {
                        draggable: Draggable {
                            interact: buildings[j].draggable.interact,
                            ..old(buildings)[j].draggable
                        },
                        ..old(buildings)[j]
                    })
                },
        decreases buildings.len() - i,
    {
        let building_size: Vec2 = get_size_from_type(&buildings[i].kind);
        let centre: Vec2 = buildings[i].position;
        buildings[i].draggable.interact = Interactable::around(&centre, &building_size);
        i += 1;
    }
}

/// Where the buildings stand, in the order of the list.
pub open spec fn positions_of(buildings: Seq<Building>) -> Seq<(int, int)> {
    Seq::new(buildings.len(), |i: int| buildings[i].position@)
}

/// What the buildings are, in the order of the list.
pub open spec fn kinds_of(buildings: Seq<Building>) -> Seq<BuildingType> {
    Seq::new(buildings.len(), |i: int| buildings[i].kind)
}

/// Two buildings stand closer than `MIN_DISTANCE`.
pub open spec fn stacked(a: (int, int), b: (int, int)) -> bool {
    dist_sq(a, b) < MIN_DISTANCE * MIN_DISTANCE
}

/// The positions after the pair `(a, b)` was looked at: where the two are
/// stacked, the one that stands farther left moves left and the other right,
/// each by half the width of the first of the pair, as far as the world goes.
/// Where neither stands farther left, the first moves left.
pub open spec fn pushed_apart(
    at: Seq<(int, int)>,
    kinds: Seq<BuildingType>,
    a: int,
    b: int,
) -> Seq<(int, int)> {
    let push = half_width(kinds[a]);
    if !stacked(at[a], at[b]) {
        at
    } else if at[a].0 <= at[b].0 {
        at.update(a, (clamp_coord(at[a].0 - push), at[a].1)).update(
            b,
            (clamp_coord(at[b].0 + push), at[b].1),
        )
    } else {
        at.update(a, (clamp_coord(at[a].0 + push), at[a].1)).update(
            b,
            (clamp_coord(at[b].0 - push), at[b].1),
        )
    }
}

/// The positions after every pair from `(a, b)` on was looked at, in the order
/// `(0, 1), (0, 2), .., (1, 2), ..`; each pair sees what the pairs before it
/// left.
pub open spec fn destacked_from(
    at: Seq<(int, int)>,
    kinds: Seq<BuildingType>,
    a: int,
    b: int,
) -> Seq<(int, int)>
    decreases kinds.len() - a, kinds.len() - b,
{
    if a < 0 || a + 1 >= kinds.len() || b <= a {
        at
    } else if b >= kinds.len() {
        destacked_from(at, kinds, a + 1, a + 2)
    } else {
        destacked_from(pushed_apart(at, kinds, a, b), kinds, a, b + 1)
    }
}

/// The positions after one pass over every pair of buildings.
pub open spec fn destacked(at: Seq<(int, int)>, kinds: Seq<BuildingType>) -> Seq<(int, int)> {
    destacked_from(at, kinds, 0, 1)
}

fn half_width_of(kind: &BuildingType) -> (half: i64)
    ensures
        half == half_width(*kind),
        0 < half <= 40_000_000,
{
    match kind {
        BuildingType::House => 24_000_000,
        BuildingType::Forum => 40_000_000,
        BuildingType::Cinema => 24_000_000,
        BuildingType::Hospital => 24_000_000,
        BuildingType::Pool => 32_000_000,
        BuildingType::Restaurant => 32_000_000,
        BuildingType::Creative => 34_000_000,
        BuildingType::Underground => 16_000_000,
        BuildingType::Tree => 16_000_000,
        BuildingType::Lamp => 5_000_000,
    }
}

/// Every building of `now` is the building of `before`, possibly elsewhere.
pub open spec fn moved_only(before: Seq<Building>, now: Seq<Building>) -> bool {
    &&& now.len() == before.len()
    &&& forall|i: int|
        0 <= i < before.len() ==> #[trigger] now[i] == (Building {
            position: now[i].position,
            ..before[i]
        })
}

/// `after` is `before` after one pass of pulling stacked buildings apart, or
/// `before` itself while the pass is `held` back.
pub open spec fn buildings_destacked(before: Seq<Building>, after: Seq<Building>, held: bool) -> bool {
    if held {
        after == before
    } else {
        &&& moved_only(before, after)
        &&& positions_of(after) == destacked(positions_of(before), kinds_of(before))
    }
}

/// One pass of pulling stacked buildings apart.  Nothing moves while the left
/// button is held, so that a building being dragged is not torn from the
/// cursor.
///
/// A pass looks at every pair once and pushes a stacked pair apart along the x
/// axis only; it may leave buildings stacked, and the next pass goes on.
pub fn destack_buildings(buildings: &mut Vec<Building>, left_pressed: bool)
    ensures
        buildings_destacked(old(buildings)@, final(buildings)@, left_pressed),
{
    if left_pressed {
        return ;
    }
    let n: usize = buildings.len();
    let ghost kinds = kinds_of(buildings@);
    let ghost goal = destacked(positions_of(buildings@), kinds);
    let mut a: usize = 0;
    while a < n
        invariant
            0 <= a <= n,
            n == old(buildings).len(),
            kinds == kinds_of(old(buildings)@),
            kinds.len() == n,
            moved_only(old(buildings)@, buildings@),
            destacked_from(positions_of(buildings@), kinds, a as int, a + 1) == goal,
        decreases n - a,
    {
        let mut b: usize = a + 1;
        while b < n
            invariant
                0 <= a < b <= n,
                n == old(buildings).len(),
                kinds == kinds_of(old(buildings)@),
                kinds.len() == n,
                moved_only(old(buildings)@, buildings@),
                destacked_from(positions_of(buildings@), kinds, a as int, b as int) == goal,
            decreases n - b,
        {
            let ghost before = positions_of(buildings@);
            let b_size: i64 = half_width_of(&buildings[a].kind);
            let at_a: Vec2 = buildings[a].position;
            let at_b: Vec2 = buildings[b].position;
            if at_a.distance_squared(&at_b) < (MIN_DISTANCE as u128) * (MIN_DISTANCE as u128) {
                if at_a.x() <= at_b.x() {
                    buildings[a].position = Vec2::new(at_a.x() - b_size, at_a.y());
                    buildings[b].position = Vec2::new(at_b.x() + b_size, at_b.y());
                } else {
                    buildings[a].position = Vec2::new(at_a.x() + b_size, at_a.y());
                    buildings[b].position = Vec2::new(at_b.x() - b_size, at_b.y());
                }
            }
            proof {
                assert(kinds[a as int] == old(buildings)@[a as int].kind);
                assert(positions_of(buildings@) =~= pushed_apart(before, kinds, a as int, b as int));
            }
            b += 1;
        }
        a += 1;
    }
}

/// Clears the world of buildings.
pub fn cleanup_buildings(buildings: &mut Vec<Building>)
    ensures
        final(buildings)@ == Seq::<Building>::empty(),
{
    buildings.clear();
}

proof fn lemma_wider_gap(gap: int, wider: int, dy: int)
    requires
        abs_int(gap) <= abs_int(wider),
    ensures
        gap * gap + dy * dy <= wider * wider + dy * dy,
{
    assert(gap * gap <= wider * wider) by (nonlinear_arith)
        requires
            abs_int(gap) <= abs_int(wider),
    ;
}

/// How far apart two buildings stand along the x axis.
pub open spec fn gap(a: (int, int), b: (int, int)) -> int {
    abs_int(b.0 - a.0)
}

/// Looking at a pair never brings the two closer, leaves each on its side of
/// the other, and moves no other building; a pair that is not stacked stays
/// where it is.
pub proof fn lemma_pushed_apart_no_closer(
    at: Seq<(int, int)>,
    kinds: Seq<BuildingType>,
    a: int,
    b: int,
)
    requires
        at.len() == kinds.len(),
        0 <= a < at.len(),
        0 <= b < at.len(),
        a != b,
        in_world(at[a]),
        in_world(at[b]),
    ensures
        dist_sq(pushed_apart(at, kinds, a, b)[a], pushed_apart(at, kinds, a, b)[b]) >= dist_sq(
            at[a],
            at[b],
        ),
        gap(pushed_apart(at, kinds, a, b)[a], pushed_apart(at, kinds, a, b)[b]) >= gap(
            at[a],
            at[b],
        ),
        at[a].0 <= at[b].0 ==> pushed_apart(at, kinds, a, b)[a].0 <= pushed_apart(
            at,
            kinds,
            a,
            b,
        )[b].0,
        at[a].0 > at[b].0 ==> pushed_apart(at, kinds, a, b)[a].0 > pushed_apart(at, kinds, a, b)[b].0,
        pushed_apart(at, kinds, a, b)[a].1 == at[a].1,
        pushed_apart(at, kinds, a, b)[b].1 == at[b].1,
        in_world(pushed_apart(at, kinds, a, b)[a]),
        in_world(pushed_apart(at, kinds, a, b)[b]),
        pushed_apart(at, kinds, a, b).len() == at.len(),
        forall|i: int|
            0 <= i < at.len() && i != a && i != b ==> pushed_apart(at, kinds, a, b)[i] == at[i],
        !stacked(at[a], at[b]) ==> pushed_apart(at, kinds, a, b) == at,
{
    let after = pushed_apart(at, kinds, a, b);
    if stacked(at[a], at[b]) {
        lemma_wider_gap(at[b].0 - at[a].0, after[b].0 - after[a].0, at[b].1 - at[a].1);
    }
}

/// Away from the edge of the world, a stacked pair is pushed apart by the whole
/// width of the first of the pair, by ten world units at least, and as far to
/// one side as to the other: the sum of the two x is as it was.
pub proof fn lemma_stacked_pair_gains(
    at: Seq<(int, int)>,
    kinds: Seq<BuildingType>,
    a: int,
    b: int,
)
    requires
        at.len() == kinds.len(),
        0 <= a < at.len(),
        0 <= b < at.len(),
        a != b,
        stacked(at[a], at[b]),
        -COORD_LIMIT + 40_000_000 <= at[a].0 <= COORD_LIMIT - 40_000_000,
        -COORD_LIMIT + 40_000_000 <= at[b].0 <= COORD_LIMIT - 40_000_000,
    ensures
        gap(pushed_apart(at, kinds, a, b)[a], pushed_apart(at, kinds, a, b)[b]) == gap(at[a], at[b])
            + footprint(kinds[a]).0,
        footprint(kinds[a]).0 >= 10_000_000,
        pushed_apart(at, kinds, a, b)[a].0 + pushed_apart(at, kinds, a, b)[b].0 == at[a].0
            + at[b].0,
        abs_int(pushed_apart(at, kinds, a, b)[a].0 - at[a].0) <= 40_000_000,
        abs_int(pushed_apart(at, kinds, a, b)[b].0 - at[b].0) <= 40_000_000,
{
}

/// The positions after that many passes.
pub open spec fn destacked_times(
    at: Seq<(int, int)>,
    kinds: Seq<BuildingType>,
    passes: nat,
) -> Seq<(int, int)>
    decreases passes,
{
    if passes == 0 {
        at
    } else {
        destacked(destacked_times(at, kinds, (passes - 1) as nat), kinds)
    }
}

/// The passes that pull a pair apart whose first building is of the given
/// kind: `MIN_DISTANCE` over the width of its footprint, rounded up.
pub open spec fn passes_needed(kind: BuildingType) -> nat {
    ((MIN_DISTANCE + footprint(kind).0 - 1) / footprint(kind).0) as nat
}

proof fn lemma_destacked_pair(at: Seq<(int, int)>, kinds: Seq<BuildingType>)
    requires
        at.len() == 2,
        kinds.len() == 2,
    ensures
        destacked(at, kinds) == pushed_apart(at, kinds, 0, 1),
{
    let pushed = pushed_apart(at, kinds, 0, 1);
    assert(destacked_from(at, kinds, 0, 1) == destacked_from(pushed, kinds, 0, 2));
    assert(destacked_from(pushed, kinds, 0, 2) == destacked_from(pushed, kinds, 1, 2));
    assert(destacked_from(pushed, kinds, 1, 2) == pushed);
}

proof fn lemma_far_apart(a: (int, int), b: (int, int))
    requires
        gap(a, b) >= MIN_DISTANCE,
    ensures
        !stacked(a, b),
{
    let dx = b.0 - a.0;
    let dy = b.1 - a.1;
    assert(dx * dx >= 30_000_000 * 30_000_000) by (nonlinear_arith)
        requires
            abs_int(dx) >= 30_000_000,
    ;
    assert(dy * dy >= 0) by (nonlinear_arith);
}

/// What one pass does to two buildings alone in the world that stand `room`
/// inside it: it never brings them closer; a stacked pair gains the width of
/// the first; a pair that is not stacked stays where it is.
proof fn lemma_pair_pass(at: Seq<(int, int)>, kinds: Seq<BuildingType>, room: int)
    requires
        at.len() == 2,
        kinds.len() == 2,
        room >= 40_000_000,
        -COORD_LIMIT + room <= at[0].0 <= COORD_LIMIT - room,
        -COORD_LIMIT + room <= at[1].0 <= COORD_LIMIT - room,
        -COORD_LIMIT <= at[0].1 <= COORD_LIMIT,
        -COORD_LIMIT <= at[1].1 <= COORD_LIMIT,
    ensures
        destacked(at, kinds).len() == 2,
        dist_sq(destacked(at, kinds)[0], destacked(at, kinds)[1]) >= dist_sq(at[0], at[1]),
        stacked(at[0], at[1]) ==> gap(destacked(at, kinds)[0], destacked(at, kinds)[1]) == gap(
            at[0],
            at[1],
        ) + footprint(kinds[0]).0,
        !stacked(at[0], at[1]) ==> destacked(at, kinds) == at,
        -COORD_LIMIT + room - 40_000_000 <= destacked(at, kinds)[0].0 <= COORD_LIMIT - room
            + 40_000_000,
        -COORD_LIMIT + room - 40_000_000 <= destacked(at, kinds)[1].0 <= COORD_LIMIT - room
            + 40_000_000,
        destacked(at, kinds)[0].1 == at[0].1,
        destacked(at, kinds)[1].1 == at[1].1,
        destacked(at, kinds)[0].0 + destacked(at, kinds)[1].0 == at[0].0 + at[1].0,
{
    lemma_destacked_pair(at, kinds);
    lemma_pushed_apart_no_closer(at, kinds, 0, 1);
    if stacked(at[0], at[1]) {
        lemma_stacked_pair_gains(at, kinds, 0, 1);
    }
}

/// Once a pair is stacked no more, no pass moves it.
proof fn lemma_settled_stays(at: Seq<(int, int)>, kinds: Seq<BuildingType>, k: nat, m: nat)
    requires
        at.len() == 2,
        kinds.len() == 2,
        k <= m,
        destacked_times(at, kinds, k).len() == 2,
        !stacked(destacked_times(at, kinds, k)[0], destacked_times(at, kinds, k)[1]),
    ensures
        destacked_times(at, kinds, m) == destacked_times(at, kinds, k),
    decreases m,
{
    if m > k {
        lemma_settled_stays(at, kinds, k, (m - 1) as nat);
        let s = destacked_times(at, kinds, k);
        lemma_destacked_pair(s, kinds);
    }
}

/// Two buildings alone in the world, neither near its edge, are never brought
/// closer by a pass and keep the sum of their x.  After as many passes as the
/// width of the first asks for, three at most, they are stacked no more, and
/// no later pass moves them.
pub proof fn lemma_pair_settles(at: Seq<(int, int)>, kinds: Seq<BuildingType>, later: nat)
    requires
        at.len() == 2,
        kinds.len() == 2,
        -COORD_LIMIT + 120_000_000 <= at[0].0 <= COORD_LIMIT - 120_000_000,
        -COORD_LIMIT + 120_000_000 <= at[1].0 <= COORD_LIMIT - 120_000_000,
        -COORD_LIMIT <= at[0].1 <= COORD_LIMIT,
        -COORD_LIMIT <= at[1].1 <= COORD_LIMIT,
        later >= passes_needed(kinds[0]),
    ensures
        dist_sq(destacked(at, kinds)[0], destacked(at, kinds)[1]) >= dist_sq(at[0], at[1]),
        destacked(at, kinds)[0].0 + destacked(at, kinds)[1].0 == at[0].0 + at[1].0,
        1 <= passes_needed(kinds[0]) <= 3,
        !stacked(
            destacked_times(at, kinds, passes_needed(kinds[0]))[0],
            destacked_times(at, kinds, passes_needed(kinds[0]))[1],
        ),
        destacked_times(at, kinds, later) == destacked_times(at, kinds, passes_needed(kinds[0])),
{
    let k = passes_needed(kinds[0]);
    let w = footprint(kinds[0]).0;
    let s0 = destacked_times(at, kinds, 0);
    let s1 = destacked_times(at, kinds, 1);
    let s2 = destacked_times(at, kinds, 2);
    let s3 = destacked_times(at, kinds, 3);
    assert(s0 == at);
    assert(s1 == destacked(s0, kinds));
    assert(s2 == destacked(s1, kinds));
    assert(s3 == destacked(s2, kinds));
    lemma_pair_pass(s0, kinds, 120_000_000);
    lemma_pair_pass(s1, kinds, 80_000_000);
    lemma_pair_pass(s2, kinds, 40_000_000);
    assert(k == 1 || k == 3);
    assert(k == 1 ==> w >= 30_000_000);
    assert(w >= 10_000_000);
    if k == 1 {
        if stacked(s0[0], s0[1]) {
            lemma_far_apart(s1[0], s1[1]);
        }
    } else {
        if stacked(s0[0], s0[1]) && stacked(s1[0], s1[1]) && stacked(s2[0], s2[1]) {
            lemma_far_apart(s3[0], s3[1]);
        }
    }
    lemma_settled_stays(at, kinds, k, later);
}

} // verus!
