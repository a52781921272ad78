//! Who likes whom.  A person makes up their mind about another once, by the
//! toss of a coin, and never changes it; what one thinks of the other says
//! nothing of what the other thinks in return.

use crate::chance::Dice;
use crate::person::{Person, UsedPersons};
use vstd::prelude::*;

verus! {

/// The person has made up their mind about `id`.
pub open spec fn classified(p: Person, id: i32) -> bool {
    p.liked@.contains(id) || p.disliked@.contains(id)
}

/// `id` stands in one of the person's two lists and not in the other.
pub open spec fn in_exactly_one(p: Person, id: i32) -> bool {
    p.liked@.contains(id) != p.disliked@.contains(id)
}

/// Nobody is both liked and disliked, and nobody is listed twice.
pub open spec fn social_wf(p: Person) -> bool {
    &&& p.liked@.no_duplicates()
    &&& p.disliked@.no_duplicates()
    &&& forall|id: i32| !(p.liked@.contains(id) && p.disliked@.contains(id))
}

/// `after` is `before` once asked to classify `id`, the coin having said
/// `likes`: a mind made up before stays as it is, and the coin is not looked at.
pub open spec fn classifies(before: Person, after: Person, id: i32, likes: bool) -> bool {
    if classified(before, id) {
        after == before
    } else if likes {
        &&& after.liked@ == before.liked@.push(id)
        &&& after == (Person { liked: after.liked, ..before })
    } else {
        &&& after.disliked@ == before.disliked@.push(id)
        &&& after == (Person { disliked: after.disliked, ..before })
    }
}

proof fn lemma_push_contains(s: Seq<i32>, id: i32, x: i32)
    ensures
        s.push(id).contains(x) <==> (s.contains(x) || x == id),
{
    if s.push(id).contains(x) {
        let i = choose|i: int| 0 <= i < s.push(id).len() && s.push(id)[i] == x;
        if i < s.len() {
            assert(s[i] == x);
        }
    }
    if s.contains(x) {
        let i = choose|i: int| 0 <= i < s.len() && s[i] == x;
        assert(s.push(id)[i] == x);
    }
    if x == id {
        assert(s.push(id)[s.len() as int] == x);
    }
}

proof fn lemma_push_no_duplicates(s: Seq<i32>, id: i32)
    requires
        s.no_duplicates(),
        !s.contains(id),
    ensures
        s.push(id).no_duplicates(),
{
    assert forall|i: int, j: int|
        0 <= i < s.push(id).len() && 0 <= j < s.push(id).len() && i != j implies s.push(id)[i]
        != s.push(id)[j] by {
        if i < s.len() && j < s.len() {
        } else if i < s.len() {
            assert(s.contains(s[i]));
        } else {
            assert(s.contains(s[j]));
        }
    }
}

/// Classifying leaves a person who has `id` in exactly one of the two lists,
/// keeps every mind made up before, and keeps the lists free of repeats.
pub proof fn lemma_classifies(before: Person, after: Person, id: i32, likes: bool)
    requires
        classifies(before, after, id, likes),
    ensures
        classified(after, id),
        social_wf(before) ==> social_wf(after),
        social_wf(before) ==> in_exactly_one(after, id),
        before.liked@.is_prefix_of(after.liked@),
        before.disliked@.is_prefix_of(after.disliked@),
        forall|x: i32| before.liked@.contains(x) ==> after.liked@.contains(x),
        forall|x: i32| before.disliked@.contains(x) ==> after.disliked@.contains(x),
        forall|x: i32| classified(after, x) ==> classified(before, x) || x == id,
{
    if !classified(before, id) {
        if likes {
            assert forall|x: i32| #[trigger]
                after.liked@.contains(x) <==> (before.liked@.contains(x) || x == id) by {
                lemma_push_contains(before.liked@, id, x);
            }
            if social_wf(before) {
                lemma_push_no_duplicates(before.liked@, id);
            }
        } else {
            assert forall|x: i32| #[trigger]
                after.disliked@.contains(x) <==> (before.disliked@.contains(x) || x == id) by {
                lemma_push_contains(before.disliked@, id, x);
            }
            if social_wf(before) {
                lemma_push_no_duplicates(before.disliked@, id);
            }
        }
    }
}

/// A second classification of the same person changes nothing, whatever the
/// coin says the second time.
pub proof fn lemma_classify_twice(
    before: Person,
    once: Person,
    twice: Person,
    id: i32,
    first: bool,
    second: bool,
)
    requires
        classifies(before, once, id, first),
        classifies(once, twice, id, second),
    ensures
        twice == once,
{
    lemma_classifies(before, once, id, first);
}

fn holds(list: &Vec<i32>, id: i32) -> (found: bool)
    ensures
        found == list@.contains(id),
{
    let mut k: usize = 0;
    while k < list.len()
        invariant
            0 <= k <= list.len(),
            forall|j: int| 0 <= j < k ==> list[j] != id,
        decreases list.len() - k,
    {
        if list[k] == id {
            return true;
        }
        k += 1;
    }
    false
}

/// Whether the person has made up their mind about `id`.
pub fn is_classified(person: &Person, id: i32) -> (known: bool)
    ensures
        known == classified(*person, id),
{
    holds(&person.liked, id) || holds(&person.disliked, id)
}

/// Whether the person likes `id`.
pub fn likes(person: &Person, id: i32) -> (yes: bool)
    ensures
        yes == person.liked@.contains(id),
{
    holds(&person.liked, id)
}

/// Whether the person dislikes `id`.
pub fn dislikes(person: &Person, id: i32) -> (yes: bool)
    ensures
        yes == person.disliked@.contains(id),
{
    holds(&person.disliked, id)
}

/// Files `other_id` under liked or disliked as the coin said, unless the person
/// has made up their mind about it before.
pub fn classify_as(person: &mut Person, other_id: i32, likes_this_one: bool)
    ensures
        classifies(*old(person), *final(person), other_id, likes_this_one),
{
    if !is_classified(person, other_id) {
        if likes_this_one {
            person.liked.push(other_id);
        } else {
            person.disliked.push(other_id);
        }
    }
}

/// Makes the person's mind up about `other_id` by the toss of a coin, unless it
/// is made up already: in that case the dice are not touched.
pub fn classify(person: &mut Person, other_id: i32, dice: &mut Dice)
    ensures
        classified(*old(person), other_id) ==> *final(person) == *old(person) && *final(dice)
            == *old(dice),
        exists|coin: bool| classifies(*old(person), *final(person), other_id, coin),
{
    if !is_classified(person, other_id) {
        let likes_this_one: bool = dice.flip();
        classify_as(person, other_id, likes_this_one);
        assert(classifies(*old(person), *person, other_id, likes_this_one));
    } else {
        assert(classifies(*old(person), *person, other_id, true));
    }
}

/// What a round of classification does to one person, the ids of the registry
/// being `ids`: nothing but the two lists changes, every mind made up before
/// stays, every id of the registry is classified afterwards, and nothing else
/// is.
pub open spec fn acquainted(before: Person, after: Person, ids: Seq<i32>) -> bool {
    &&& after == (Person { liked: after.liked, disliked: after.disliked, ..before })
    &&& before.liked@.is_prefix_of(after.liked@)
    &&& before.disliked@.is_prefix_of(after.disliked@)
    &&& forall|x: i32| before.liked@.contains(x) ==> after.liked@.contains(x)
    &&& forall|x: i32| before.disliked@.contains(x) ==> after.disliked@.contains(x)
    &&& forall|x: i32| ids.contains(x) ==> classified(after, x)
    &&& forall|x: i32| classified(after, x) ==> classified(before, x) || ids.contains(x)
    &&& social_wf(before) ==> social_wf(after)
}

/// Makes one person's mind up about every id of the registry.
pub fn acquaint(person: &mut Person, used_ids: &UsedPersons, dice: &mut Dice)
    ensures
        acquainted(*old(person), *final(person), used_ids.list@),
{
    let mut k: usize = 0;
    while k < used_ids.list.len()
        invariant
            0 <= k <= used_ids.list.len(),
            acquainted(*old(person), *person, used_ids.list@.take(k as int)),
        decreases used_ids.list.len() - k,
    {
        let ghost before = *person;
        let id: i32 = used_ids.list[k];
        classify(person, id, dice);
        proof {
            let coin = choose|coin: bool| classifies(before, *person, id, coin);
            lemma_classifies(before, *person, id, coin);
            let seen = used_ids.list@.take(k as int);
            let next = used_ids.list@.take(k + 1);
            assert(next =~= seen.push(id));
            assert forall|x: i32| next.contains(x) <==> (seen.contains(x) || x == id) by {
                lemma_push_contains(seen, id, x);
            }
        }
        k += 1;
    }
    assert(used_ids.list@.take(k as int) =~= used_ids.list@);
}

/// Every person of `after` is the person of `before` after a round of
/// classification; and whoever had their lists in order has every id of the
/// registry in exactly one of them.
pub open spec fn all_acquainted(before: Seq<Person>, after: Seq<Person>, ids: Seq<i32>) -> bool {
    &&& after.len() == before.len()
    &&& forall|i: int| 0 <= i < before.len() ==> acquainted(before[i], #[trigger] after[i], ids)
    &&& forall|i: int, x: i32|
        0 <= i < before.len() && social_wf(before[i]) && ids.contains(x)
            ==> #[trigger] in_exactly_one(after[i], x)
}

/// One round of classification: everybody makes up their mind about every id of
/// the registry that they have no opinion of yet.
///
/// Afterwards every id of the registry stands, for every person whose lists
/// were in order, in exactly one of that person's two lists.
pub fn update_liked_disliked(persons: &mut Vec<Person>, used_ids: &UsedPersons, dice: &mut Dice)
    ensures
        all_acquainted(old(persons)@, final(persons)@, used_ids.list@),
{
    let mut i: usize = 0;
    while i < persons.len()
        invariant
            0 <= i <= persons.len(),
            persons.len() == old(persons).len(),
            forall|j: int| i <= j < persons.len() ==> persons[j] == old(persons)[j],
            forall|j: int|
                0 <= j < i ==> acquainted(old(persons)[j], #[trigger] persons[j], used_ids.list@),
        decreases persons.len() - i,
    {
        acquaint(&mut persons[i], used_ids, dice);
        i += 1;
    }
}

} // verus!
