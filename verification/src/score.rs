//! How content the people are: each person's satisfaction, and the score of the
//! whole population.

use crate::person::{mean_needs, mean_of_needs, Person};
use vstd::prelude::*;

verus! {

/// The score of the population: the mean satisfaction, in thousandths of a
/// point.
#[derive(Clone, Copy, Debug, PartialEq, Eq, Structural)]
pub struct Score(pub u32);

/// Sum of everybody's satisfaction.
pub open spec fn total_satisfaction(persons: Seq<Person>) -> nat
    decreases persons.len(),
{
    if persons.len() == 0 {
        0
    } else {
        total_satisfaction(persons.drop_last()) + persons.last().satisfaction as nat
    }
}

/// The mean satisfaction, rounded down; none for an empty world.
pub open spec fn population_score(persons: Seq<Person>) -> Option<u32> {
    if persons.len() == 0 {
        None
    } else {
        Some((total_satisfaction(persons) / persons.len()) as u32)
    }
}

proof fn lemma_total_bound(persons: Seq<Person>)
    ensures
        total_satisfaction(persons) <= persons.len() * 0xFFFF_FFFF,
    decreases persons.len(),
{
    if persons.len() > 0 {
        lemma_total_bound(persons.drop_last());
        assert((persons.len() - 1) * 0xFFFF_FFFF + 0xFFFF_FFFF == persons.len() * 0xFFFF_FFFF)
            by (nonlinear_arith);
    }
}

proof fn lemma_mean_bound(sum: int, n: int)
    requires
        n > 0,
        0 <= sum <= n * 0xFFFF_FFFF,
    ensures
        0 <= sum / n <= 0xFFFF_FFFF,
{
    vstd::arithmetic::div_mod::lemma_fundamental_div_mod(sum, n);
    vstd::arithmetic::div_mod::lemma_mod_bound(sum, n);
    let q = sum / n;
    if q > 0xFFFF_FFFF {
        assert(n * q >= n * 0x1_0000_0000) by (nonlinear_arith)
            requires
                q >= 0x1_0000_0000,
                n > 0,
        ;
    }
    if q < 0 {
        assert(n * q <= -n) by (nonlinear_arith)
            requires
                q <= -1,
                n > 0,
        ;
    }
}

/// Every person of `after` is the person of `before` with their satisfaction
/// brought up to date.
pub open spec fn satisfaction_refreshed(before: Seq<Person>, after: Seq<Person>) -> bool {
    &&& after.len() == before.len()
    &&& forall|i: int|
        0 <= i < before.len() ==> #[trigger] after[i] == (Person {
            satisfaction: mean_of_needs(before[i]),
            ..before[i]
        })
}

/// Sets everybody's satisfaction to the mean of their seven needs.
pub fn refresh_satisfaction(persons: &mut Vec<Person>)
    ensures
        satisfaction_refreshed(old(persons)@, final(persons)@),
{
    let mut i: usize = 0;
    while i < persons.len()
        invariant
            0 <= i <= persons.len(),
            persons.len() == old(persons).len(),
            forall|j: int| i <= j < persons.len() ==> persons[j] == old(persons)[j],
            forall|j: int|
                0 <= j < i ==> #[trigger] persons[j] == (Person {
                    satisfaction: mean_of_needs(old(persons)[j]),
                    ..old(persons)[j]
                }),
        decreases persons.len() - i,
    {
        let mean: u32 = mean_needs(&persons[i]);
        persons[i].satisfaction = mean;
        i += 1;
    }
}

/// The mean satisfaction of the population; none for an empty world, which has
/// no score.
pub fn mean_satisfaction(persons: &Vec<Person>) -> (mean: Option<u32>)
    ensures
        mean == population_score(persons@),
{
    if persons.len() == 0 {
        return None;
    }
    let mut sum: u128 = 0;
    let mut k: usize = 0;
    while k < persons.len()
        invariant
            0 <= k <= persons.len(),
            sum == total_satisfaction(persons@.take(k as int)),
            sum <= k * 0xFFFF_FFFF,
        decreases persons.len() - k,
    {
        proof {
            assert(persons@.take(k + 1).drop_last() =~= persons@.take(k as int));
            lemma_total_bound(persons@.take(k + 1));
            assert((k + 1) * 0xFFFF_FFFF <= 0xFFFF_FFFF_FFFF_FFFF * 0xFFFF_FFFF) by (nonlinear_arith)
                requires
                    k + 1 <= 0xFFFF_FFFF_FFFF_FFFF,
            ;
        }
        sum = sum + persons[k].satisfaction as u128;
        k += 1;
    }
    proof {
        assert(persons@.take(k as int) =~= persons@);
        lemma_mean_bound(sum as int, persons.len() as int);
    }
    Some((sum / (persons.len() as u128)) as u32)
}

/// The score once brought up to date: the mean satisfaction, or the old score
/// in an empty world, which has none.
pub open spec fn score_after(before: Score, persons: Seq<Person>) -> Score {
    match population_score(persons) {
        Some(mean) => Score(mean),
        None => before,
    }
}

/// Brings the score up to date.  An empty world has no score: the old one
/// stays, and the answer is `false`.
pub fn update_score(score: &mut Score, persons: &Vec<Person>) -> (updated: bool)
    ensures
        updated == (persons.len() > 0),
        *final(score) == score_after(*old(score), persons@),
{
    match mean_satisfaction(persons) {
        Some(mean) => {
            score.0 = mean;
            true
        },
        None => false,
    }
}

} // verus!
