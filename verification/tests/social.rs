use complexcity::chance::Dice;
use complexcity::person::{newborn, Person, UsedPersons};
use complexcity::social::{
    acquaint, classify, classify_as, dislikes, is_classified, likes, update_liked_disliked,
};

fn in_exactly_one(p: &Person, id: i32) -> bool {
    p.liked.contains(&id) != p.disliked.contains(&id)
}

#[test]
fn classify_as_files_an_id_where_the_coin_says() {
    let mut p = newborn(0);
    classify_as(&mut p, 3, true);
    classify_as(&mut p, 4, false);
    assert_eq!(p.liked, vec![3]);
    assert_eq!(p.disliked, vec![4]);
    assert!(likes(&p, 3) && !dislikes(&p, 3));
    assert!(dislikes(&p, 4) && !likes(&p, 4));
    assert!(is_classified(&p, 3) && is_classified(&p, 4) && !is_classified(&p, 5));
}

#[test]
fn classify_as_twice_changes_nothing_the_second_time() {
    let mut p = newborn(0);
    classify_as(&mut p, 3, true);
    classify_as(&mut p, 3, false);
    classify_as(&mut p, 3, true);
    assert_eq!(p.liked, vec![3]);
    assert!(p.disliked.is_empty());
    classify_as(&mut p, 9, false);
    classify_as(&mut p, 9, true);
    assert_eq!(p.liked, vec![3]);
    assert_eq!(p.disliked, vec![9]);
}

#[test]
fn classify_never_moves_an_id_between_the_lists() {
    for seed in 0..50u64 {
        let mut dice = Dice::from_seed(seed);
        let mut p = newborn(0);
        classify(&mut p, 1, &mut dice);
        let liked_first = p.liked.clone();
        let disliked_first = p.disliked.clone();
        assert!(in_exactly_one(&p, 1));
        for _ in 0..20 {
            classify(&mut p, 1, &mut dice);
        }
        assert_eq!(p.liked, liked_first);
        assert_eq!(p.disliked, disliked_first);
    }
}

#[test]
fn classify_leaves_the_dice_alone_once_the_mind_is_made_up() {
    let mut used = Dice::from_seed(11);
    let mut fresh = Dice::from_seed(11);
    let mut p = newborn(0);
    classify_as(&mut p, 1, true);
    for _ in 0..10 {
        classify(&mut p, 1, &mut used);
    }
    let mut a = newborn(1);
    let mut b = newborn(1);
    for id in 0..64 {
        classify(&mut a, id, &mut used);
        classify(&mut b, id, &mut fresh);
    }
    assert_eq!(a.liked, b.liked);
    assert_eq!(a.disliked, b.disliked);
}

#[test]
fn the_coin_falls_both_ways() {
    let mut dice = Dice::from_seed(3);
    let mut p = newborn(0);
    for id in 0..400 {
        classify(&mut p, id, &mut dice);
    }
    assert_eq!(p.liked.len() + p.disliked.len(), 400);
    assert!(p.liked.len() > 120 && p.disliked.len() > 120);
}

#[test]
fn acquaint_classifies_every_id_of_the_registry_once() {
    let mut dice = Dice::from_seed(8);
    let used = UsedPersons { list: vec![0, 1, 2, 2, 5, 1] };
    let mut p = newborn(1);
    classify_as(&mut p, 2, false);
    acquaint(&mut p, &used, &mut dice);
    for id in [0, 1, 2, 5] {
        assert!(in_exactly_one(&p, id));
    }
    assert!(p.disliked.contains(&2));
    assert_eq!(p.liked.len() + p.disliked.len(), 4);
}

#[test]
fn after_one_round_everybody_has_an_opinion_of_everybody() {
    let mut dice = Dice::from_seed(21);
    let mut persons: Vec<Person> = (0..12).map(newborn).collect();
    let used = UsedPersons { list: (0..12).collect() };
    update_liked_disliked(&mut persons, &used, &mut dice);
    for p in &persons {
        for id in 0..12 {
            assert!(in_exactly_one(p, id));
        }
        assert_eq!(p.liked.len() + p.disliked.len(), 12);
    }
    let before: Vec<(Vec<i32>, Vec<i32>)> =
        persons.iter().map(|p| (p.liked.clone(), p.disliked.clone())).collect();
    update_liked_disliked(&mut persons, &used, &mut dice);
    let after: Vec<(Vec<i32>, Vec<i32>)> =
        persons.iter().map(|p| (p.liked.clone(), p.disliked.clone())).collect();
    assert_eq!(before, after);
}

#[test]
fn liking_need_not_be_returned() {
    let mut found = false;
    for seed in 0..64u64 {
        let mut dice = Dice::from_seed(seed);
        let mut persons = vec![newborn(0), newborn(1)];
        let used = UsedPersons { list: vec![0, 1] };
        update_liked_disliked(&mut persons, &used, &mut dice);
        if persons[0].liked.contains(&1) && persons[1].disliked.contains(&0) {
            found = true;
        }
    }
    assert!(found);
}

#[test]
fn a_newcomer_is_classified_in_the_next_round() {
    let mut dice = Dice::from_seed(2);
    let mut persons = vec![newborn(0)];
    let mut used = UsedPersons { list: vec![0] };
    update_liked_disliked(&mut persons, &used, &mut dice);
    persons.push(newborn(1));
    used.list.push(1);
    let first = (persons[0].liked.clone(), persons[0].disliked.clone());
    update_liked_disliked(&mut persons, &used, &mut dice);
    assert!(in_exactly_one(&persons[0], 0) && in_exactly_one(&persons[0], 1));
    assert!(in_exactly_one(&persons[1], 0) && in_exactly_one(&persons[1], 1));
    assert_eq!(persons[0].liked.contains(&0), first.0.contains(&0));
    assert_eq!(persons[0].disliked.contains(&0), first.1.contains(&0));
}
