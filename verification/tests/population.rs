use complexcity::drag::CursorPosition;
use complexcity::person::{
    cleanup_persons, free_id, hitbox_follow, newborn, spawn_first_person, spawn_person, Person,
    UsedPersons, POPULATION_CAP,
};
use complexcity::score::{mean_satisfaction, refresh_satisfaction, update_score, Score};
use complexcity::selector::{
    find_problems, first_hit, follow_selected_person, least_satisfied, step_selected,
    switch_selected, update_person_info, Problems, Selector, Sentence,
};
use complexcity::states::GameState;
use complexcity::timer::RepeatTimer;
use complexcity::vector::Vec2;

fn xy(v: &Vec2) -> (i64, i64) {
    (v.x(), v.y())
}

/// A person at a place given in thousandths of a unit.
fn person_at(id: i32, x: i64, y: i64, satisfaction: u32) -> Person {
    let mut p = newborn(id);
    p.position = Vec2::new(x * 1_000, y * 1_000);
    p.satisfaction = satisfaction;
    p
}

#[test]
fn the_first_person_has_id_zero() {
    let mut persons = Vec::new();
    let mut used = UsedPersons::default();
    spawn_first_person(&mut persons, &mut used);
    assert_eq!(persons.len(), 1);
    assert_eq!(persons[0].id, 0);
    assert_eq!(used.list, vec![0]);
}

#[test]
fn the_next_id_is_one_more_than_the_largest() {
    assert_eq!(free_id(&UsedPersons { list: vec![] }), Some(0));
    assert_eq!(free_id(&UsedPersons { list: vec![0] }), Some(1));
    assert_eq!(free_id(&UsedPersons { list: vec![0, 7, 3] }), Some(8));
    assert_eq!(free_id(&UsedPersons { list: vec![-5, -9] }), Some(-4));
    assert_eq!(free_id(&UsedPersons { list: vec![1, i32::MAX, 2] }), None);
}

#[test]
fn a_person_is_born_when_the_clock_goes_off() {
    let mut persons = Vec::new();
    let mut used = UsedPersons::default();
    let mut timer = RepeatTimer::from_micros(6_300_000);
    spawn_first_person(&mut persons, &mut used);
    spawn_person(&mut persons, &mut used, 6_299_999, &mut timer);
    assert_eq!(persons.len(), 1);
    spawn_person(&mut persons, &mut used, 1, &mut timer);
    assert_eq!(persons.len(), 2);
    assert_eq!(persons[1].id, 1);
    assert_eq!(used.list, vec![0, 1]);
    spawn_person(&mut persons, &mut used, 6_300_000, &mut timer);
    assert_eq!(used.list, vec![0, 1, 2]);
    assert_eq!(persons[2].hunger, 50_000);
}

#[test]
fn births_beyond_the_cap_are_dropped() {
    let mut persons = Vec::new();
    let mut used = UsedPersons { list: (0..2_000).collect() };
    let mut timer = RepeatTimer::from_micros(1);
    assert_eq!(POPULATION_CAP, 2_001);
    spawn_person(&mut persons, &mut used, 1, &mut timer);
    assert_eq!(used.list.len(), 2_001);
    assert_eq!(persons.len(), 1);
    assert_eq!(persons[0].id, 2_000);
    spawn_person(&mut persons, &mut used, 1, &mut timer);
    assert_eq!(used.list.len(), 2_001);
    assert_eq!(persons.len(), 1);
    assert_eq!(timer.elapsed, 0);
}

#[test]
fn cleanup_starts_the_ids_over() {
    let mut persons = vec![newborn(0), newborn(1)];
    let mut used = UsedPersons { list: vec![0, 1] };
    cleanup_persons(&mut persons, &mut used);
    assert!(persons.is_empty() && used.list.is_empty());
    spawn_first_person(&mut persons, &mut used);
    assert_eq!(used.list, vec![0]);
}

#[test]
fn click_boxes_follow_their_persons() {
    let mut persons = vec![person_at(0, 100_000, -50_000, 1), person_at(1, 0, 0, 1)];
    hitbox_follow(&mut persons);
    assert_eq!(xy(&persons[0].interact.bottom_left), (92_000_000, -61_500_000));
    assert_eq!(xy(&persons[0].interact.top_right), (108_000_000, -38_500_000));
    assert_eq!(xy(&persons[1].interact.bottom_left), (-8_000_000, -11_500_000));
    assert_eq!(xy(&persons[1].interact.top_right), (8_000_000, 11_500_000));
}

#[test]
fn an_empty_world_has_no_score() {
    assert_eq!(mean_satisfaction(&Vec::new()), None);
    let mut score = Score(12_345);
    assert!(!update_score(&mut score, &Vec::new()));
    assert_eq!(score, Score(12_345));
}

#[test]
fn the_score_is_the_mean_satisfaction_rounded_down() {
    let persons =
        vec![person_at(0, 0, 0, 10_000), person_at(1, 0, 0, 20_000), person_at(2, 0, 0, 20_001)];
    assert_eq!(mean_satisfaction(&persons), Some(16_667));
    let mut score = Score(0);
    assert!(update_score(&mut score, &persons));
    assert_eq!(score, Score(16_667));
    let full = vec![person_at(0, 0, 0, u32::MAX), person_at(1, 0, 0, u32::MAX)];
    assert_eq!(mean_satisfaction(&full), Some(u32::MAX));
}

#[test]
fn satisfaction_is_the_mean_of_the_seven_needs() {
    let mut persons = vec![newborn(0), newborn(1)];
    persons[1].hunger = 20_833;
    persons[1].shelter = 100_000;
    persons[1].social = 100_000;
    refresh_satisfaction(&mut persons);
    assert_eq!(persons[0].satisfaction, 76_428);
    assert_eq!(persons[1].satisfaction, 88_690);
}

#[test]
fn problems_are_the_needs_under_their_thresholds() {
    let mut p = newborn(0);
    assert_eq!(find_problems(&p), Problems::default());
    p.shelter = 9_999;
    p.hunger = 24_999;
    p.social = 24_999;
    p.entertained = 19_999;
    p.health = 29_999;
    p.sport = 19_999;
    p.creativity = 19_999;
    let all = Problems {
        shelter: true,
        hunger: true,
        social: true,
        entertained: true,
        health: true,
        sport: true,
        creativity: true,
    };
    assert_eq!(find_problems(&p), all);
    p.health = 30_000;
    p.sport = 20_000;
    assert_eq!(find_problems(&p), Problems { health: false, sport: false, ..all });
}

#[test]
fn the_panel_learns_of_new_problems_and_forgets_the_solved_ones() {
    let mut shown = Problems::default();
    let mut p = newborn(0);
    p.shelter = 100_000;
    p.hunger = 24_000;
    let first = update_person_info(&mut shown, &p);
    assert_eq!(first.hunger, Sentence::Append);
    assert_eq!(first.shelter, Sentence::Remove);
    assert_eq!(first.health, Sentence::Remove);
    assert!(shown.hunger && !shown.shelter);
    let second = update_person_info(&mut shown, &p);
    assert_eq!(second.hunger, Sentence::Keep);
    p.hunger = 25_000;
    p.sport = 0;
    let third = update_person_info(&mut shown, &p);
    assert_eq!(third.hunger, Sentence::Remove);
    assert_eq!(third.sport, Sentence::Append);
    assert_eq!(shown, Problems { sport: true, ..Problems::default() });
}

#[test]
fn a_click_selects_the_first_person_under_the_cursor() {
    let mut persons =
        vec![person_at(4, 0, 0, 1), person_at(8, 5_000, 0, 1), person_at(9, 300_000, 0, 1)];
    hitbox_follow(&mut persons);
    let mut selector = Selector { selected: 9 };
    let cursor = CursorPosition(Vec2::new(4_000_000, 1_000_000));
    assert_eq!(first_hit(&persons, &cursor), Some(0));
    switch_selected(&mut selector, &persons, true, true, &cursor);
    assert_eq!(selector.selected, 4);
    let right = CursorPosition(Vec2::new(9_000_000, 1_000_000));
    switch_selected(&mut selector, &persons, true, false, &right);
    assert_eq!(selector.selected, 8);
    let nowhere = CursorPosition(Vec2::new(100_000_000, 0));
    assert_eq!(first_hit(&persons, &nowhere), None);
    switch_selected(&mut selector, &persons, true, true, &nowhere);
    assert_eq!(selector.selected, 8);
}

#[test]
fn tab_selects_the_least_satisfied_and_the_first_of_them() {
    let persons = vec![
        person_at(3, 0, 0, 70_000),
        person_at(5, 0, 0, 20_000),
        person_at(6, 0, 0, 90_000),
        person_at(7, 0, 0, 20_000),
    ];
    assert_eq!(least_satisfied(&persons), Some(1));
    let mut selector = Selector { selected: 0 };
    let cursor = CursorPosition(Vec2::zero());
    switch_selected(&mut selector, &persons, false, true, &cursor);
    assert_eq!(selector.selected, 5);
    switch_selected(&mut selector, &persons, false, false, &cursor);
    assert_eq!(selector.selected, 5);
}

#[test]
fn tab_selects_somebody_even_where_everybody_is_content() {
    let persons = vec![person_at(3, 0, 0, 100_000), person_at(5, 0, 0, 100_000)];
    let mut selector = Selector { selected: 5 };
    switch_selected(&mut selector, &persons, false, true, &CursorPosition(Vec2::zero()));
    assert_eq!(selector.selected, 3);
}

#[test]
fn tab_in_an_empty_world_selects_the_id_zero() {
    assert_eq!(least_satisfied(&Vec::new()), None);
    let mut selector = Selector { selected: 5 };
    switch_selected(&mut selector, &Vec::new(), false, true, &CursorPosition(Vec2::zero()));
    assert_eq!(selector.selected, 0);
}

#[test]
fn stepping_stays_inside_the_ids_handed_out() {
    let used = UsedPersons { list: vec![0, 1, 2, 3] };
    let mut selector = Selector { selected: 2 };
    step_selected(&mut selector, &used, true);
    assert_eq!(selector.selected, 3);
    step_selected(&mut selector, &used, true);
    assert_eq!(selector.selected, 3);
    for _ in 0..5 {
        step_selected(&mut selector, &used, false);
    }
    assert_eq!(selector.selected, 0);
    let mut lost = Selector { selected: i32::MAX };
    step_selected(&mut lost, &used, true);
    assert_eq!(lost.selected, 3);
    let mut nobody = Selector { selected: 7 };
    step_selected(&mut nobody, &UsedPersons::default(), false);
    assert_eq!(nobody.selected, 7);
}

#[test]
fn the_selector_follows_the_selected_person() {
    let persons = vec![person_at(0, 1, 2, 1), person_at(1, 3, 4, 1)];
    let spot = follow_selected_person(&Selector { selected: 1 }, &persons);
    assert_eq!(spot.map(|v| xy(&v)), Some((3_000, 4_000)));
    assert!(follow_selected_person(&Selector { selected: 2 }, &persons).is_none());
}

#[test]
fn the_play_button_starts_the_game_and_escape_ends_it() {
    assert_eq!(GameState::default(), GameState::MainMenu);
    assert_eq!(GameState::MainMenu.next(false, false), GameState::MainMenu);
    assert_eq!(GameState::MainMenu.next(false, true), GameState::MainMenu);
    assert_eq!(GameState::MainMenu.next(true, false), GameState::Playing);
    assert_eq!(GameState::Playing.next(true, false), GameState::Playing);
    assert_eq!(GameState::Playing.next(false, true), GameState::MainMenu);
}
