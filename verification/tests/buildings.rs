use complexcity::building::{
    cleanup_buildings, destack_buildings, get_size_from_type, hitbox_follow, spawn_building,
    trigger_spawn, Building, BuildingAvailable, BuildingTimers, BuildingType, PlacementKeys,
};
use complexcity::drag::{
    clicked_on, dragging_system, CursorPosition, Draggable, Interactable, MouseButtons,
};
use complexcity::vector::Vec2;

fn building(kind: BuildingType, x: i64, y: i64) -> Building {
    Building { kind, position: Vec2::new(x, y), draggable: Draggable::default() }
}

fn xy(v: &Vec2) -> (i64, i64) {
    (v.x(), v.y())
}

fn spots(buildings: &[Building]) -> Vec<(i64, i64)> {
    buildings.iter().map(|b| xy(&b.position)).collect()
}

fn least_distance_squared(buildings: &[Building]) -> u128 {
    let mut least = u128::MAX;
    for a in 0..buildings.len() {
        for b in a + 1..buildings.len() {
            least = least.min(buildings[a].position.distance_squared(&buildings[b].position));
        }
    }
    least
}

#[test]
fn every_kind_has_its_footprint() {
    let sizes = [
        (BuildingType::House, (48_000_000, 48_000_000)),
        (BuildingType::Forum, (80_000_000, 96_000_000)),
        (BuildingType::Cinema, (48_000_000, 42_000_000)),
        (BuildingType::Hospital, (48_000_000, 96_000_000)),
        (BuildingType::Pool, (64_000_000, 54_000_000)),
        (BuildingType::Restaurant, (64_000_000, 48_000_000)),
        (BuildingType::Creative, (68_000_000, 42_000_000)),
        (BuildingType::Underground, (32_000_000, 48_000_000)),
        (BuildingType::Tree, (32_000_000, 48_000_000)),
        (BuildingType::Lamp, (10_000_000, 46_000_000)),
    ];
    for (kind, size) in sizes {
        assert_eq!(xy(&get_size_from_type(&kind)), size);
    }
}

#[test]
fn a_building_is_placed_with_its_corner_on_the_origin() {
    let mut buildings = vec![building(BuildingType::Tree, 5_000, 5_000)];
    spawn_building(BuildingType::Forum, &mut buildings);
    assert_eq!(buildings.len(), 2);
    assert_eq!(xy(&buildings[0].position), (5_000, 5_000));
    let forum = &buildings[1];
    assert_eq!(forum.kind, BuildingType::Forum);
    assert_eq!(xy(&forum.position), (40_000_000, 48_000_000));
    assert_eq!(xy(&forum.draggable.interact.bottom_left), (0, 0));
    assert_eq!(xy(&forum.draggable.interact.top_right), (80_000_000, 96_000_000));
    assert!(!forum.draggable.being_dragged);
}

#[test]
fn the_waits_start_at_their_durations() {
    let timers = BuildingTimers::new();
    assert_eq!(timers.house.duration, 11_000_000);
    assert_eq!(timers.forum.duration, 55_000_000);
    assert_eq!(timers.cinema.duration, 99_000_000);
    assert_eq!(timers.hospital.duration, 80_000_000);
    assert_eq!(timers.pool.duration, 109_000_000);
    assert_eq!(timers.restaurant.duration, 27_000_000);
    assert_eq!(timers.creative.duration, 66_000_000);
    assert!(!timers.house.available && timers.house.elapsed == 0);
}

#[test]
fn nothing_is_placed_before_its_wait_is_over() {
    let mut buildings = Vec::new();
    let mut available = BuildingAvailable::default();
    let mut timers = BuildingTimers::new();
    let all = PlacementKeys {
        house: true,
        forum: true,
        cinema: true,
        hospital: true,
        pool: true,
        restaurant: true,
        creative: true,
        tree: false,
        lamp: false,
    };
    trigger_spawn(&mut buildings, &all, 10_999_999, &mut available, &mut timers);
    assert!(buildings.is_empty());
    assert_eq!(available, BuildingAvailable::default());
    assert_eq!(timers.house.elapsed, 10_999_999);
}

#[test]
fn a_placement_uses_the_availability_up() {
    let mut buildings = Vec::new();
    let mut available = BuildingAvailable::default();
    let mut timers = BuildingTimers::new();
    let none = PlacementKeys::default();
    let house = PlacementKeys { house: true, ..PlacementKeys::default() };
    trigger_spawn(&mut buildings, &none, 11_000_000, &mut available, &mut timers);
    assert!(available.house && !available.restaurant);
    assert!(buildings.is_empty());
    trigger_spawn(&mut buildings, &none, 5_000_000, &mut available, &mut timers);
    assert!(available.house);
    trigger_spawn(&mut buildings, &house, 1, &mut available, &mut timers);
    assert_eq!(buildings.len(), 1);
    assert_eq!(buildings[0].kind, BuildingType::House);
    assert!(!available.house);
    assert_eq!(timers.house.elapsed, 0);
    trigger_spawn(&mut buildings, &house, 10_999_999, &mut available, &mut timers);
    assert_eq!(buildings.len(), 1);
    assert!(!available.house);
    assert!(available.restaurant);
    trigger_spawn(&mut buildings, &house, 1, &mut available, &mut timers);
    assert_eq!(buildings.len(), 2);
    assert!(!available.house);
}

#[test]
fn a_placement_asked_for_in_the_tick_that_ends_the_wait_goes_through() {
    let mut buildings = Vec::new();
    let mut available = BuildingAvailable::default();
    let mut timers = BuildingTimers::new();
    let keys = PlacementKeys { restaurant: true, house: true, ..PlacementKeys::default() };
    trigger_spawn(&mut buildings, &keys, 27_000_000, &mut available, &mut timers);
    let kinds: Vec<BuildingType> = buildings.iter().map(|b| b.kind).collect();
    assert_eq!(kinds, vec![BuildingType::House, BuildingType::Restaurant]);
    assert!(!available.house && !available.restaurant);
}

#[test]
fn trees_and_lamps_wait_for_nothing() {
    let mut buildings = Vec::new();
    let mut available = BuildingAvailable::default();
    let mut timers = BuildingTimers::new();
    let keys = PlacementKeys { tree: true, lamp: true, ..PlacementKeys::default() };
    trigger_spawn(&mut buildings, &keys, 0, &mut available, &mut timers);
    trigger_spawn(&mut buildings, &keys, 0, &mut available, &mut timers);
    let kinds: Vec<BuildingType> = buildings.iter().map(|b| b.kind).collect();
    assert_eq!(
        kinds,
        vec![BuildingType::Tree, BuildingType::Lamp, BuildingType::Tree, BuildingType::Lamp]
    );
}

#[test]
fn every_kind_is_placed_in_the_order_of_the_keys() {
    let mut buildings = Vec::new();
    let mut available = BuildingAvailable::default();
    let mut timers = BuildingTimers::new();
    let all = PlacementKeys {
        house: true,
        forum: true,
        cinema: true,
        hospital: true,
        pool: true,
        restaurant: true,
        creative: true,
        tree: true,
        lamp: true,
    };
    trigger_spawn(&mut buildings, &all, 109_000_000, &mut available, &mut timers);
    let kinds: Vec<BuildingType> = buildings.iter().map(|b| b.kind).collect();
    assert_eq!(
        kinds,
        vec![
            BuildingType::House,
            BuildingType::Forum,
            BuildingType::Cinema,
            BuildingType::Hospital,
            BuildingType::Pool,
            BuildingType::Restaurant,
            BuildingType::Creative,
            BuildingType::Tree,
            BuildingType::Lamp
        ]
    );
    assert_eq!(available, BuildingAvailable::default());
}

#[test]
fn click_boxes_follow_their_buildings() {
    let mut buildings =
        vec![building(BuildingType::Lamp, 100_000_000, -50_000_000), building(BuildingType::House, 0, 0)];
    buildings[1].draggable.being_dragged = true;
    hitbox_follow(&mut buildings);
    assert_eq!(xy(&buildings[0].draggable.interact.bottom_left), (95_000_000, -73_000_000));
    assert_eq!(xy(&buildings[0].draggable.interact.top_right), (105_000_000, -27_000_000));
    assert_eq!(xy(&buildings[1].draggable.interact.bottom_left), (-24_000_000, -24_000_000));
    assert_eq!(xy(&buildings[1].draggable.interact.top_right), (24_000_000, 24_000_000));
    assert!(buildings[1].draggable.being_dragged);
}

#[test]
fn a_click_counts_strictly_inside_the_box() {
    let target = Interactable { bottom_left: Vec2::new(0, 0), top_right: Vec2::new(10_000, 20_000) };
    assert!(clicked_on(&CursorPosition(Vec2::new(1_000, 1_000)), &target));
    assert!(clicked_on(&CursorPosition(Vec2::new(9_000, 19_000)), &target));
    assert!(!clicked_on(&CursorPosition(Vec2::new(0, 5_000)), &target));
    assert!(!clicked_on(&CursorPosition(Vec2::new(10_000, 5_000)), &target));
    assert!(!clicked_on(&CursorPosition(Vec2::new(5_000, 0)), &target));
    assert!(!clicked_on(&CursorPosition(Vec2::new(5_000, 20_000)), &target));
    assert!(!clicked_on(&CursorPosition(Vec2::new(-3_000, 30_000)), &target));
}

#[test]
fn stacked_buildings_are_pulled_apart_along_x() {
    let mut buildings =
        vec![building(BuildingType::House, 0, 0), building(BuildingType::Forum, 10_000_000, 5_000_000)];
    destack_buildings(&mut buildings, false);
    assert_eq!(spots(&buildings), vec![(-24_000_000, 0), (34_000_000, 5_000_000)]);
    destack_buildings(&mut buildings, false);
    assert_eq!(spots(&buildings), vec![(-24_000_000, 0), (34_000_000, 5_000_000)]);
}

#[test]
fn buildings_far_enough_apart_stay_where_they_are() {
    let mut buildings =
        vec![building(BuildingType::House, 0, 0), building(BuildingType::House, 30_000_000, 0)];
    destack_buildings(&mut buildings, false);
    assert_eq!(spots(&buildings), vec![(0, 0), (30_000_000, 0)]);
    buildings[1].position = Vec2::new(29_999_000, 0);
    destack_buildings(&mut buildings, false);
    assert_eq!(spots(&buildings), vec![(-24_000_000, 0), (53_999_000, 0)]);
}

#[test]
fn nothing_is_pulled_apart_while_the_button_is_held() {
    let mut buildings =
        vec![building(BuildingType::House, 0, 0), building(BuildingType::House, 1_000, 1_000)];
    destack_buildings(&mut buildings, true);
    assert_eq!(spots(&buildings), vec![(0, 0), (1_000, 1_000)]);
}

#[test]
fn each_pair_sees_what_the_pairs_before_it_left() {
    let mut buildings = vec![
        building(BuildingType::Lamp, 0, 0),
        building(BuildingType::Lamp, 1_000_000, 0),
        building(BuildingType::Lamp, 2_000_000, 0),
    ];
    destack_buildings(&mut buildings, false);
    assert_eq!(spots(&buildings), vec![(-10_000_000, 0), (1_000_000, 0), (12_000_000, 0)]);
}

#[test]
fn a_pile_of_lamps_comes_apart_in_a_few_passes() {
    let mut buildings = vec![building(BuildingType::Lamp, 0, 0), building(BuildingType::Lamp, 0, 0)];
    let mut gaps = Vec::new();
    for _ in 0..4 {
        destack_buildings(&mut buildings, false);
        gaps.push(buildings[1].position.x() - buildings[0].position.x());
    }
    assert_eq!(gaps, vec![10_000_000, 20_000_000, 30_000_000, 30_000_000]);
    assert!(least_distance_squared(&buildings) >= 30_000_000 * 30_000_000);
}

#[test]
fn passes_never_bring_a_pair_closer_whichever_stands_on_the_left() {
    let kinds = [BuildingType::Lamp, BuildingType::House, BuildingType::Forum, BuildingType::Tree];
    for (n, first) in kinds.iter().enumerate() {
        for gap in [0i64, 1, 4_999_999, 15_000_000, 29_999_999, 30_000_000, 70_000_000] {
            for side in [-1i64, 1] {
                for dy in [0i64, 7_000_000, -29_000_000] {
                    let mut buildings =
                        vec![building(*first, side * gap, dy), building(kinds[(n + 1) % 4], 0, 0)];
                    let sum = side * gap;
                    let mut least = least_distance_squared(&buildings);
                    for _ in 0..5 {
                        destack_buildings(&mut buildings, false);
                        let now = least_distance_squared(&buildings);
                        assert!(now >= least);
                        least = now;
                        assert_eq!(buildings[0].position.x() + buildings[1].position.x(), sum);
                        assert_eq!(buildings[0].position.y(), dy);
                        assert_eq!(buildings[1].position.y(), 0);
                    }
                    assert!(least >= 30_000_000 * 30_000_000);
                }
            }
        }
    }
}

#[test]
fn a_first_building_on_the_right_is_pushed_to_the_right() {
    let mut buildings =
        vec![building(BuildingType::Lamp, 10_000_000, 0), building(BuildingType::Lamp, 0, 0)];
    destack_buildings(&mut buildings, false);
    assert_eq!(spots(&buildings), vec![(15_000_000, 0), (-5_000_000, 0)]);
    let mut close =
        vec![building(BuildingType::Lamp, 29_000_000, 0), building(BuildingType::Lamp, 0, 0)];
    destack_buildings(&mut close, false);
    assert_eq!(spots(&close), vec![(34_000_000, 0), (-5_000_000, 0)]);
    destack_buildings(&mut close, false);
    assert_eq!(spots(&close), vec![(34_000_000, 0), (-5_000_000, 0)]);
}

#[test]
fn a_pair_is_apart_after_as_many_passes_as_the_width_of_the_first_asks_for() {
    let widths = [
        (BuildingType::Lamp, 3),
        (BuildingType::Tree, 1),
        (BuildingType::House, 1),
        (BuildingType::Forum, 1),
    ];
    for (kind, passes) in widths {
        let mut buildings = vec![building(kind, 0, 0), building(BuildingType::Pool, 0, 0)];
        for _ in 0..passes {
            destack_buildings(&mut buildings, false);
        }
        assert!(least_distance_squared(&buildings) >= 30_000_000 * 30_000_000);
        let settled = spots(&buildings);
        destack_buildings(&mut buildings, false);
        assert_eq!(spots(&buildings), settled);
    }
}

#[test]
fn destacking_stops_at_the_edge_of_the_world() {
    let mut buildings = vec![
        building(BuildingType::House, -999_999_000_000, 0),
        building(BuildingType::House, -999_999_000_000, 0),
    ];
    destack_buildings(&mut buildings, false);
    assert_eq!(spots(&buildings), vec![(-1_000_000_000_000, 0), (-999_975_000_000, 0)]);
}

#[test]
fn cleanup_clears_the_buildings_away() {
    let mut buildings = vec![building(BuildingType::House, 0, 0)];
    cleanup_buildings(&mut buildings);
    assert!(buildings.is_empty());
}

#[test]
fn a_building_is_picked_up_carried_and_dropped() {
    let mut buildings =
        vec![building(BuildingType::House, 0, 0), building(BuildingType::Lamp, 200_000_000, 0)];
    hitbox_follow(&mut buildings);
    let press = MouseButtons { just_pressed: true, pressed: true, just_released: false };
    let hold = MouseButtons { just_pressed: false, pressed: true, just_released: false };
    let release = MouseButtons { just_pressed: false, pressed: false, just_released: true };
    dragging_system(&mut buildings, &press, &CursorPosition(Vec2::new(10_000_000, -10_000_000)));
    assert!(buildings[0].draggable.being_dragged);
    assert!(!buildings[1].draggable.being_dragged);
    assert_eq!(spots(&buildings), vec![(10_000_000, -10_000_000), (200_000_000, 0)]);
    dragging_system(&mut buildings, &hold, &CursorPosition(Vec2::new(500_000_000, 1_000)));
    assert_eq!(spots(&buildings), vec![(500_000_000, 1_000), (200_000_000, 0)]);
    dragging_system(&mut buildings, &release, &CursorPosition(Vec2::new(7_000, 7_000)));
    assert!(!buildings[0].draggable.being_dragged);
    assert_eq!(spots(&buildings), vec![(500_000_000, 1_000), (200_000_000, 0)]);
    dragging_system(&mut buildings, &hold, &CursorPosition(Vec2::new(0, 0)));
    assert_eq!(spots(&buildings), vec![(500_000_000, 1_000), (200_000_000, 0)]);
}

#[test]
fn a_press_outside_every_box_picks_nothing_up() {
    let mut buildings = vec![building(BuildingType::House, 0, 0)];
    hitbox_follow(&mut buildings);
    let press = MouseButtons { just_pressed: true, pressed: true, just_released: false };
    dragging_system(&mut buildings, &press, &CursorPosition(Vec2::new(24_000_000, 0)));
    assert!(!buildings[0].draggable.being_dragged);
    assert_eq!(spots(&buildings), vec![(0, 0)]);
}
