//! The one person that the player is looking at.

use crate::drag::{clicked_on, strictly_inside, CursorPosition};
use crate::movement::{
    CREAT_THRESHOLD, ENTERT_THRESHOLD, HEALTH_THRESHOLD, HUNGER_THRESHOLD, SHELTER_THRESHOLD,
    SOCIAL_THRESHOLD, SPORT_THRESHOLD,
};
use crate::person::{Person, UsedPersons};
use crate::vector::Vec2;
use vstd::prelude::*;

verus! {

/// Which of a person's needs have fallen under their threshold.
#[derive(Clone, Copy, Debug, Default, PartialEq, Eq, Structural)]
pub struct Problems {
    pub shelter: bool,
    pub hunger: bool,
    pub social: bool,
    pub entertained: bool,
    pub health: bool,
    pub sport: bool,
    pub creativity: bool,
}

/// The id of the person looked at.  There is always exactly one selector, and
/// it starts on the first person.
#[derive(Clone, Copy, Debug, PartialEq, Eq, Structural)]
pub struct Selector {
    pub selected: i32,
}

/// Which needs of the person are a problem.
pub open spec fn problems_of(p: Person) -> Problems {
    Problems {
        shelter: p.shelter < SHELTER_THRESHOLD,
        hunger: p.hunger < HUNGER_THRESHOLD,
        social: p.social < SOCIAL_THRESHOLD,
        entertained: p.entertained < ENTERT_THRESHOLD,
        health: p.health < HEALTH_THRESHOLD,
        sport: p.sport < SPORT_THRESHOLD,
        creativity: p.creativity < CREAT_THRESHOLD,
    }
}

/// Which needs of the person are a problem.
pub fn find_problems(person: &Person) -> (problems: Problems)
    ensures
        problems == problems_of(*person),
{
    Problems {
        shelter: person.shelter < SHELTER_THRESHOLD,
        hunger: person.hunger < HUNGER_THRESHOLD,
        social: person.social < SOCIAL_THRESHOLD,
        entertained: person.entertained < ENTERT_THRESHOLD,
        health: person.health < HEALTH_THRESHOLD,
        sport: person.sport < SPORT_THRESHOLD,
        creativity: person.creativity < CREAT_THRESHOLD,
    }
}

/// What becomes of the sentence that tells of one problem.
#[derive(Clone, Copy, Debug, PartialEq, Eq, Structural)]
pub enum Sentence {
    /// The problem is new: the sentence goes behind the others.
    Append,
    /// The problem is gone: the sentence goes.
    Remove,
    /// The problem is known: the sentence stays where it is.
    Keep,
}

/// What becomes of the sentence of each problem.
#[derive(Clone, Copy, Debug, PartialEq, Eq, Structural)]
pub struct PanelNews {
    pub shelter: Sentence,
    pub hunger: Sentence,
    pub social: Sentence,
    pub entertained: Sentence,
    pub health: Sentence,
    pub sport: Sentence,
    pub creativity: Sentence,
}

/// What becomes of a sentence that is or is not `shown` when the need is or is
/// not a `problem`.
pub open spec fn sentence_news(shown: bool, problem: bool) -> Sentence {
    if problem && !shown {
        Sentence::Append
    } else if !problem {
        Sentence::Remove
    } else {
        Sentence::Keep
    }
}

/// What becomes of every sentence when the panel, which showed the problems of
/// `shown`, turns to the person.
pub open spec fn panel_news(shown: Problems, p: Person) -> PanelNews {
    let now = problems_of(p);
    PanelNews {
        shelter: sentence_news(shown.shelter, now.shelter),
        hunger: sentence_news(shown.hunger, now.hunger),
        social: sentence_news(shown.social, now.social),
        entertained: sentence_news(shown.entertained, now.entertained),
        health: sentence_news(shown.health, now.health),
        sport: sentence_news(shown.sport, now.sport),
        creativity: sentence_news(shown.creativity, now.creativity),
    }
}

fn news_of(shown: bool, problem: bool) -> (news: Sentence)
    ensures
        news == sentence_news(shown, problem),
{
    if problem && !shown {
        Sentence::Append
    } else if !problem {
        Sentence::Remove
    } else {
        Sentence::Keep
    }
}

/// Turns the list of problems to the person: says what becomes of each
/// sentence, and takes down which problems are shown from now on.
pub fn update_person_info(problems: &mut Problems, person: &Person) -> (news: PanelNews)
    ensures
        news == panel_news(*old(problems), *person),
        *final(problems) == problems_of(*person),
{
    let now: Problems = find_problems(person);
    let news = PanelNews {
        shelter: news_of(problems.shelter, now.shelter),
        hunger: news_of(problems.hunger, now.hunger),
        social: news_of(problems.social, now.social),
        entertained: news_of(problems.entertained, now.entertained),
        health: news_of(problems.health, now.health),
        sport: news_of(problems.sport, now.sport),
        creativity: news_of(problems.creativity, now.creativity),
    };
    *problems = now;
    news
}

/// The cursor is inside the click box of the person.
pub open spec fn under_cursor(p: Person, cursor: CursorPosition) -> bool {
    strictly_inside(cursor.0@, p.interact.bottom_left@, p.interact.top_right@)
}

/// Person `i` is the first under the cursor.
pub open spec fn is_first_hit(persons: Seq<Person>, cursor: CursorPosition, i: int) -> bool {
    &&& 0 <= i < persons.len()
    &&& under_cursor(persons[i], cursor)
    &&& forall|j: int| 0 <= j < i ==> !under_cursor(#[trigger] persons[j], cursor)
}

/// Person `i` is the least satisfied, and the first of those who are.
pub open spec fn is_least_satisfied(persons: Seq<Person>, i: int) -> bool {
    &&& 0 <= i < persons.len()
    &&& forall|j: int|
        0 <= j < persons.len() ==> persons[i].satisfaction <= (#[trigger] persons[j]).satisfaction
    &&& forall|j: int|
        0 <= j < i ==> persons[i].satisfaction < (#[trigger] persons[j]).satisfaction
}

/// The first person under the cursor, if there is one.
pub fn first_hit(persons: &Vec<Person>, cursor_pos: &CursorPosition) -> (hit: Option<usize>)
    ensures
        hit matches Some(i) ==> is_first_hit(persons@, *cursor_pos, i as int),
        hit is None ==> forall|j: int|
            0 <= j < persons.len() ==> !under_cursor(#[trigger] persons[j], *cursor_pos),
{
    let mut k: usize = 0;
    while k < persons.len()
        invariant
            0 <= k <= persons.len(),
            forall|j: int| 0 <= j < k ==> !under_cursor(#[trigger] persons[j], *cursor_pos),
        decreases persons.len() - k,
    {
        if clicked_on(cursor_pos, &persons[k].interact) {
            return Some(k);
        }
        k += 1;
    }
    None
}

/// The least satisfied person, the first of them where several are; none in an
/// empty world.
pub fn least_satisfied(persons: &Vec<Person>) -> (found: Option<usize>)
    ensures
        found matches Some(i) ==> is_least_satisfied(persons@, i as int),
        found is None <==> persons.len() == 0,
{
    if persons.len() == 0 {
        return None;
    }
    let mut min_index: usize = 0;
    let mut k: usize = 1;
    while k < persons.len()
        invariant
            0 <= min_index < k <= persons.len(),
            forall|j: int|
                0 <= j < k ==> persons[min_index as int].satisfaction <= (
                #[trigger] persons[j]).satisfaction,
            forall|j: int|
                0 <= j < min_index ==> persons[min_index as int].satisfaction < (
                #[trigger] persons[j]).satisfaction,
        decreases persons.len() - k,
    {
        if persons[k].satisfaction < persons[min_index].satisfaction {
            min_index = k;
        }
        k += 1;
    }
    Some(min_index)
}

/// `after` is the selection that `before` turns into: a click selects the first
/// person under the cursor and changes nothing where there is none; without a
/// click the tab key selects the least satisfied person, the first of them where
/// several are, or the id zero in an empty world; without either nothing
/// changes.
pub open spec fn selection_switched(
    before: Selector,
    after: Selector,
    persons: Seq<Person>,
    clicked: bool,
    tab: bool,
    cursor: CursorPosition,
) -> bool {
    if clicked {
        ||| exists|i: int| is_first_hit(persons, cursor, i) && after.selected == persons[i].id
        ||| (forall|j: int| 0 <= j < persons.len() ==> !under_cursor(#[trigger] persons[j], cursor))
            && after == before
    } else if tab {
        if persons.len() == 0 {
            after.selected == 0
        } else {
            exists|i: int| is_least_satisfied(persons, i) && after.selected == persons[i].id
        }
    } else {
        after == before
    }
}

/// Changes the person looked at, by a click on a person or by the tab key.
pub fn switch_selected(
    selector: &mut Selector,
    persons: &Vec<Person>,
    clicked: bool,
    tab: bool,
    cursor_pos: &CursorPosition,
)
    ensures
        selection_switched(*old(selector), *final(selector), persons@, clicked, tab, *cursor_pos),
{
    if clicked {
        match first_hit(persons, cursor_pos) {
            Some(i) => {
                selector.selected = persons[i].id;
            },
            None => {},
        }
    } else if tab {
        // Select the least satisfied person
        match least_satisfied(persons) {
            Some(i) => {
                selector.selected = persons[i].id;
            },
            None => {
                selector.selected = 0;
            },
        }
    }
}

/// The smallest id of the list; the largest `i32` for the empty list.
pub open spec fn smallest(list: Seq<i32>) -> int
    decreases list.len(),
{
    if list.len() == 0 {
        i32::MAX as int
    } else {
        let rest = smallest(list.drop_last());
        if list.last() < rest {
            list.last() as int
        } else {
            rest
        }
    }
}

/// The id after `selected`, or before it, held inside the range of the ids that
/// were handed out; `selected` itself where none was.
pub open spec fn stepped_id(list: Seq<i32>, selected: i32, forward: bool) -> int {
    if list.len() == 0 {
        selected as int
    } else if forward {
        crate::fixed::clamp_int(selected + 1, smallest(list), crate::person::largest(list))
    } else {
        crate::fixed::clamp_int(selected - 1, smallest(list), crate::person::largest(list))
    }
}

fn id_range(used_ids: &UsedPersons) -> (range: (i32, i32))
    requires
        used_ids.list.len() > 0,
    ensures
        range.0 == smallest(used_ids.list@),
        range.1 == crate::person::largest(used_ids.list@),
        range.0 <= range.1,
{
    let mut low: i32 = i32::MAX;
    let mut high: i32 = i32::MIN;
    let mut k: usize = 0;
    while k < used_ids.list.len()
        invariant
            0 <= k <= used_ids.list.len(),
            low == smallest(used_ids.list@.take(k as int)),
            high == crate::person::largest(used_ids.list@.take(k as int)),
            k > 0 ==> low <= high,
        decreases used_ids.list.len() - k,
    {
        assert(used_ids.list@.take(k + 1).drop_last() =~= used_ids.list@.take(k as int));
        if used_ids.list[k] < low {
            low = used_ids.list[k];
        }
        if used_ids.list[k] > high {
            high = used_ids.list[k];
        }
        k += 1;
    }
    assert(used_ids.list@.take(k as int) =~= used_ids.list@);
    (low, high)
}

/// Moves the selection to the next id, or to the one before, never leaving the
/// range of the ids that were handed out.
pub fn step_selected(selector: &mut Selector, used_ids: &UsedPersons, forward: bool)
    ensures
        final(selector).selected == stepped_id(used_ids.list@, old(selector).selected, forward),
{
    if used_ids.list.len() == 0 {
        return ;
    }
    let (low, high) = id_range(used_ids);
    let wanted: i64 = if forward {
        selector.selected as i64 + 1
    } else {
        selector.selected as i64 - 1
    };
    if wanted < low as i64 {
        selector.selected = low;
    } else if wanted > high as i64 {
        selector.selected = high;
    } else {
        selector.selected = wanted as i32;
    }
}

/// Person `i` is the first with the given id.
pub open spec fn is_first_with_id(persons: Seq<Person>, id: i32, i: int) -> bool {
    &&& 0 <= i < persons.len()
    &&& persons[i].id == id
    &&& forall|j: int| 0 <= j < i ==> (#[trigger] persons[j]).id != id
}

/// Where the selected person stands, for the selector to follow; none where
/// nobody has the selected id.
pub fn follow_selected_person(selector: &Selector, persons: &Vec<Person>) -> (spot: Option<Vec2>)
    ensures
        spot matches Some(at) ==> exists|i: int|
            is_first_with_id(persons@, selector.selected, i) && at == persons[i].position,
        spot is None ==> forall|j: int|
            0 <= j < persons.len() ==> (#[trigger] persons[j]).id != selector.selected,
{
    let mut k: usize = 0;
    while k < persons.len()
        invariant
            0 <= k <= persons.len(),
            forall|j: int| 0 <= j < k ==> (#[trigger] persons[j]).id != selector.selected,
        decreases persons.len() - k,
    {
        if persons[k].id == selector.selected {
            assert(is_first_with_id(persons@, selector.selected, k as int));
            return Some(persons[k].position);
        }
        k += 1;
    }
    None
}

} // verus!
