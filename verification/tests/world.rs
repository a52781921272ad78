use complexcity::building::{Building, BuildingType, PlacementKeys};
use complexcity::chance::Dice;
use complexcity::drag::Draggable;
use complexcity::movement::{desire_movement, reset_movement_vector, MovementScalar};
use complexcity::person::{decrease_scores, newborn, Stacking, NEED_MAX};
use complexcity::score::Score;
use complexcity::timer::RepeatTimer;
use complexcity::vector::Vec2;
use complexcity::world::{TickInput, World};

fn xy(v: &Vec2) -> (i64, i64) {
    (v.x(), v.y())
}

fn frame(dt: u64) -> TickInput {
    TickInput { dt, ..TickInput::default() }
}

#[test]
fn a_new_world_is_empty() {
    let world = World::new(Stacking::Stack);
    assert!(world.persons.is_empty() && world.buildings.is_empty());
    assert!(world.used_ids.list.is_empty());
    assert_eq!(world.movt_scalar, MovementScalar(22));
    assert_eq!(world.score, Score(0));
    assert_eq!(world.spawn_timer.duration, 6_300_000);
    assert_eq!(world.update_timer.duration, 1_000_000);
    assert_eq!(world.dir_timer.duration, 2_900_000);
}

#[test]
fn the_game_starts_with_one_person() {
    let mut world = World::new(Stacking::Stack);
    world.start();
    assert_eq!(world.persons.len(), 1);
    assert_eq!(world.used_ids.list, vec![0]);
    assert_eq!(world.selector.selected, 0);
    world.reset();
    assert!(world.persons.is_empty() && world.used_ids.list.is_empty());
}

#[test]
fn a_new_game_starts_in_a_cleared_world() {
    let mut world = World::new(Stacking::Stack);
    world.start();
    let mut dice = Dice::from_seed(6);
    let keys = PlacementKeys { tree: true, ..PlacementKeys::default() };
    for _ in 0..70 {
        world.tick(&TickInput { dt: 100_000, keys, ..TickInput::default() }, &mut dice);
    }
    assert_eq!(world.used_ids.list, vec![0, 1]);
    assert_eq!(world.buildings.len(), 70);
    world.selector.selected = 1;
    world.start();
    assert_eq!(world.used_ids.list, vec![0]);
    assert_eq!(world.persons.len(), 1);
    assert_eq!(world.persons[0].id, 0);
    assert!(world.buildings.is_empty());
    assert_eq!(world.selector.selected, 0);
    assert_eq!(world.spawn_timer.elapsed, 700_000);
}

#[test]
fn a_tick_in_an_empty_world_keeps_the_old_score() {
    let mut world = World::new(Stacking::Stack);
    world.score = Score(4_242);
    let mut dice = Dice::from_seed(0);
    world.tick(&frame(16_667), &mut dice);
    assert_eq!(world.score, Score(4_242));
    assert!(world.persons.is_empty());
}

#[test]
fn hungry_with_no_restaurant_the_desire_pulls_nowhere() {
    let mut persons = vec![newborn(0)];
    let mut timer = RepeatTimer::from_micros(1_000_000);
    let mut dice = Dice::from_seed(33);
    let mut steps = 0;
    while persons[0].hunger >= 25_000 {
        decrease_scores(&mut persons, 250_000, &mut timer, &mut dice);
        steps += 1;
    }
    assert_eq!(steps, 34 * 4);
    assert_eq!(persons[0].hunger, 24_500);
    reset_movement_vector(&mut persons);
    desire_movement(&mut persons, &Vec::new());
    assert!(persons[0].movement_vector.is_zero());
    persons[0].movement_vector = Vec2::new(-77, 5);
    desire_movement(&mut persons, &Vec::new());
    assert_eq!(xy(&persons[0].movement_vector), (-77, 5));
}

#[test]
fn hungry_near_a_restaurant_one_tick_feeds_and_draws_closer() {
    let mut world = World::new(Stacking::Stack);
    let mut hungry = newborn(0);
    hungry.shelter = 100_000;
    hungry.social = 100_000;
    hungry.hunger = 20_000;
    hungry.position = Vec2::new(10_000_000, 0);
    world.persons.push(hungry);
    world.used_ids.list.push(0);
    world.buildings.push(Building {
        kind: BuildingType::Restaurant,
        position: Vec2::zero(),
        draggable: Draggable::default(),
    });
    let before = world.persons[0].position.distance_squared(&Vec2::zero());
    let mut dice = Dice::from_seed(1);
    world.tick(&frame(16_667), &mut dice);
    let p = &world.persons[0];
    assert_eq!(p.hunger, 20_833);
    assert_eq!(xy(&p.position), (9_761_689, 3_563));
    assert!(p.movement_vector.is_zero());
    assert!(p.position.distance_squared(&Vec2::zero()) < before);
    assert_eq!(p.satisfaction, 88_690);
    assert_eq!(world.score, Score(88_690));
    assert!(p.liked.contains(&0) != p.disliked.contains(&0));
    assert_eq!(xy(&p.interact.bottom_left), (9_761_689 - 8_000_000, 3_563 - 11_500_000));
}

#[test]
fn nobody_moves_before_every_force_is_in() {
    let mut world = World::new(Stacking::Stack);
    let mut left = newborn(0);
    left.shelter = 100_000;
    left.position = Vec2::new(-1_000_000, 0);
    left.liked = vec![0, 1];
    let mut right = newborn(1);
    right.shelter = 100_000;
    right.position = Vec2::new(1_000_000, 0);
    right.liked = vec![0, 1];
    world.persons.push(left);
    world.persons.push(right);
    world.used_ids.list = vec![0, 1];
    let mut dice = Dice::from_seed(1);
    world.tick(&frame(1_000_000), &mut dice);
    assert_eq!(xy(&world.persons[0].position), (-1_000_000 + 8_289_087, 3_889_087));
    assert_eq!(xy(&world.persons[1].position), (1_000_000 - 510_912, 3_889_087));
}

#[test]
fn the_population_grows_and_keeps_its_needs_in_range() {
    let mut world = World::new(Stacking::Once);
    world.start();
    let mut dice = Dice::from_seed(77);
    let place = TickInput {
        dt: 100_000,
        keys: PlacementKeys { house: true, restaurant: true, tree: true, ..PlacementKeys::default() },
        ..TickInput::default()
    };
    for _ in 0..1_200 {
        let before: Vec<Vec2> = world.persons.iter().map(|p| p.position).collect();
        world.tick(&place, &mut dice);
        for (p, was) in world.persons.iter().zip(&before) {
            let step = was.distance_squared(&p.position);
            assert!(step >= 54_998 * 54_998 && step <= 1_430_000 * 1_430_000);
        }
        assert!(world.used_ids.list.contains(&world.selector.selected));
        for p in &world.persons {
            for need in
                [p.shelter, p.hunger, p.social, p.entertained, p.health, p.sport, p.creativity]
            {
                assert!(need <= NEED_MAX);
            }
            for id in &world.used_ids.list {
                assert!(p.liked.contains(id) != p.disliked.contains(id));
            }
            assert!(p.movement_vector.is_zero());
        }
    }
    assert_eq!(world.persons.len(), 1 + 120_000_000 / 6_300_000);
    assert_eq!(world.used_ids.list, (0..20).collect::<Vec<i32>>());
    let houses = world.buildings.iter().filter(|b| b.kind == BuildingType::House).count();
    let restaurants = world.buildings.iter().filter(|b| b.kind == BuildingType::Restaurant).count();
    assert_eq!(houses, 10);
    assert_eq!(restaurants, 4);
    assert_eq!(world.buildings.len(), 10 + 4 + 1_200);
}
