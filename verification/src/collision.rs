//! The bookkeeping of the collision engine: which pairs of bodies are
//! measured, which of them overlap, and which corrections each body
//! collects.
//!
//! The caller measures each pair. A measurement holds two magnitudes (see
//! [`crate::magnitude`]), the distance between the centres and the sum of
//! the radii, and is compared by their bit patterns. What a body collects is a list of terms, one per overlap it is part of; the
//! caller computes the correction of each overlapping pair and sums, for
//! each body, the corrections that its terms name.

use crate::magnitude::is_magnitude;
use crate::magnitude::scaled_value;
use vstd::prelude::*;

verus! {

/// What the collision engine remembers from one tick to the next.
pub struct CollisionSystemData {
    previous_solutions: usize,
}

impl CollisionSystemData {
    /// The number of solutions of the tick before.
    pub closed spec fn remembered(&self) -> usize {
        self.previous_solutions
    }

    pub fn previous_solutions(&self) -> (count: usize)
        ensures
            count == self.remembered(),
    {
        self.previous_solutions
    }
}

impl Default for CollisionSystemData {
    fn default() -> (data: CollisionSystemData)
        ensures
            data.remembered() == 0,
    {
        CollisionSystemData { previous_solutions: 0 }
    }
}

/// One measured pair of bodies.
#[derive(Clone, Copy, PartialEq, Eq, Debug)]
pub struct Measure {
    /// The entity id of the pair's first body.
    pub first: u32,
    /// The entity id of the pair's second body.
    pub second: u32,
    /// The distance between the two centres.
    pub separation: u32,
    /// The sum of the two radii.
    pub reach: u32,
}

impl Measure {
    /// Whether both measurements are magnitudes.
    pub open spec fn is_measured(self) -> bool {
        is_magnitude(self.separation) && is_magnitude(self.reach)
    }

    /// Two bodies overlap where the pattern of the distance between their
    /// centres is below that of the sum of their radii. For a pair that
    /// [`is_measured`](Self::is_measured) this says that the centres are
    /// closer than the sum of the radii; bodies that only touch do not
    /// overlap.
    pub open spec fn overlaps(self) -> bool {
        self.separation < self.reach
    }

    pub fn is_overlap(&self) -> (overlap: bool)
        ensures
            overlap == self.overlaps(),
    {
        self.separation < self.reach
    }
}

/// One correction that a body collects: that of the overlapping pair
/// measured at place `pair`, taken as it is by the pair's first body and
/// negated by its second.
#[derive(Clone, Copy, PartialEq, Eq, Debug)]
pub struct Term {
    pub pair: usize,
    pub reversed: bool,
}

/// What one body collects in one tick.
#[derive(PartialEq, Eq, Debug)]
pub struct CollisionSolution {
    pub entity_id: u32,
    pub terms: Vec<Term>,
}

/// Overlap is detected exactly where the distance between the centres is,
/// as a number, below the sum of the radii.
pub proof fn lemma_overlap_compares_numbers(measure: Measure)
    requires
        measure.is_measured(),
    ensures
        measure.overlaps() <==> scaled_value(measure.separation) < scaled_value(measure.reach),
{
    crate::magnitude::lemma_magnitudes_compare_as_numbers(measure.separation, measure.reach);
}

/// The mathematical content of a [`CollisionSolution`].
pub struct SolutionView {
    pub entity_id: u32,
    pub terms: Seq<Term>,
}

impl View for CollisionSolution {
    type V = SolutionView;

    open spec fn view(&self) -> SolutionView {
        SolutionView { entity_id: self.entity_id, terms: self.terms@ }
    }
}

/// The contents of a sequence of solutions.
pub open spec fn views(solutions: Seq<CollisionSolution>) -> Seq<SolutionView> {
    Seq::new(solutions.len(), |i: int| solutions[i]@)
}

/// The first place at or after `from` where a solution of `entity_id`
/// stands, or the length of the sequence where there is none.
pub open spec fn first_place(solutions: Seq<SolutionView>, entity_id: u32, from: int) -> int
    decreases solutions.len() - from,
{
    if from < 0 || from >= solutions.len() {
        solutions.len() as int
    } else if solutions[from].entity_id == entity_id {
        from
    } else {
        first_place(solutions, entity_id, from + 1)
    }
}

/// `solutions` after the body `entity_id` collected `term`: the term joins
/// the body's solution, or starts one at the end.
pub open spec fn appended(solutions: Seq<SolutionView>, entity_id: u32, term: Term) -> Seq<
    SolutionView,
> {
    let at = first_place(solutions, entity_id, 0);
    if at < solutions.len() {
        solutions.update(at, SolutionView { entity_id, terms: solutions[at].terms.push(term) })
    } else {
        solutions.push(SolutionView { entity_id, terms: seq![term] })
    }
}

/// The solutions of a tick with these measurements: every overlapping pair,
/// in the order measured, gives a term to its first body and the reversed
/// term to its second.
pub open spec fn solutions_of(measures: Seq<Measure>) -> Seq<SolutionView>
    decreases measures.len(),
{
    if measures.len() == 0 {
        Seq::empty()
    } else {
        let before = solutions_of(measures.drop_last());
        let pair = (measures.len() - 1) as usize;
        let last = measures.last();
        if last.overlaps() {
            appended(
                appended(before, last.first, Term { pair, reversed: false }),
                last.second,
                Term { pair, reversed: true },
            )
        } else {
            before
        }
    }
}

/// The terms that the body `entity_id` is owed: one for each overlapping
/// pair that it is the first body of, and a reversed one for each that it is
/// the second body of, in the order measured.
pub open spec fn contributions(measures: Seq<Measure>, entity_id: u32) -> Seq<Term>
    decreases measures.len(),
{
    if measures.len() == 0 {
        Seq::empty()
    } else {
        let before = contributions(measures.drop_last(), entity_id);
        let pair = (measures.len() - 1) as usize;
        let last = measures.last();
        let direct = if last.overlaps() && last.first == entity_id {
            before.push(Term { pair, reversed: false })
        } else {
            before
        };
        if last.overlaps() && last.second == entity_id {
            direct.push(Term { pair, reversed: true })
        } else {
            direct
        }
    }
}

/// No two solutions belong to one body.
pub open spec fn distinct(solutions: Seq<SolutionView>) -> bool {
    forall|i: int, j: int|
        0 <= i < j < solutions.len() ==> (#[trigger] solutions[i]).entity_id != (
        #[trigger] solutions[j]).entity_id
}

/// The terms that `solutions` hold for the body `entity_id`.
pub open spec fn terms_for(solutions: Seq<SolutionView>, entity_id: u32) -> Seq<Term> {
    let at = first_place(solutions, entity_id, 0);
    if at < solutions.len() {
        solutions[at].terms
    } else {
        Seq::empty()
    }
}

proof fn lemma_first_place(solutions: Seq<SolutionView>, entity_id: u32, from: int)
    requires
        0 <= from <= solutions.len(),
    ensures
        from <= first_place(solutions, entity_id, from) <= solutions.len(),
        first_place(solutions, entity_id, from) < solutions.len() ==> solutions[first_place(
            solutions,
            entity_id,
            from,
        )].entity_id == entity_id,
        forall|j: int|
            from <= j < first_place(solutions, entity_id, from) ==> (
            #[trigger] solutions[j]).entity_id != entity_id,
    decreases solutions.len() - from,
{
    if from < solutions.len() && solutions[from].entity_id != entity_id {
        lemma_first_place(solutions, entity_id, from + 1);
    }
}

proof fn lemma_place_is(solutions: Seq<SolutionView>, entity_id: u32, at: int)
    requires
        0 <= at <= solutions.len(),
        at < solutions.len() ==> solutions[at].entity_id == entity_id,
        forall|j: int| 0 <= j < at ==> (#[trigger] solutions[j]).entity_id != entity_id,
    ensures
        first_place(solutions, entity_id, 0) == at,
{
    lemma_first_place(solutions, entity_id, 0);
    let found = first_place(solutions, entity_id, 0);
    if found < at {
        assert(solutions[found].entity_id == entity_id);
    } else if at < found {
        assert(solutions[at].entity_id == entity_id);
    }
}

proof fn lemma_appended(solutions: Seq<SolutionView>, entity_id: u32, term: Term)
    requires
        distinct(solutions),
        forall|i: int| 0 <= i < solutions.len() ==> (#[trigger] solutions[i]).terms.len() > 0,
    ensures
        distinct(appended(solutions, entity_id, term)),
        forall|i: int|
            0 <= i < appended(solutions, entity_id, term).len() ==> (#[trigger] appended(
                solutions,
                entity_id,
                term,
            )[i]).terms.len() > 0,
        forall|other: u32|
            #[trigger] terms_for(appended(solutions, entity_id, term), other) == (if other
                == entity_id {
                terms_for(solutions, entity_id).push(term)
            } else {
                terms_for(solutions, other)
            }),
{
    let after = appended(solutions, entity_id, term);
    let at = first_place(solutions, entity_id, 0);
    lemma_first_place(solutions, entity_id, 0);
    assert(after.len() >= solutions.len());
    assert forall|i: int| 0 <= i < solutions.len() implies (#[trigger] after[i]).entity_id
        == solutions[i].entity_id by {}
    assert forall|i: int, j: int| 0 <= i < j < after.len() implies (#[trigger] after[i]).entity_id
        != (#[trigger] after[j]).entity_id by {
        if j < solutions.len() {
            assert(solutions[i].entity_id != solutions[j].entity_id);
        } else {
            assert(solutions[i].entity_id != entity_id);
        }
    }
    assert forall|other: u32| #[trigger]
        terms_for(after, other) == (if other == entity_id {
            terms_for(solutions, entity_id).push(term)
        } else {
            terms_for(solutions, other)
        }) by {
        let place = first_place(solutions, other, 0);
        lemma_first_place(solutions, other, 0);
        if other == entity_id {
            assert forall|j: int| 0 <= j < at implies (#[trigger] after[j]).entity_id
                != entity_id by {
                assert(solutions[j].entity_id != entity_id);
            }
            lemma_place_is(after, entity_id, at);
            if at >= solutions.len() {
                assert(seq![term] =~= Seq::<Term>::empty().push(term));
            }
        } else {
            if place < solutions.len() {
                assert forall|j: int| 0 <= j < place implies (#[trigger] after[j]).entity_id
                    != other by {
                    assert(solutions[j].entity_id != other);
                }
                lemma_place_is(after, other, place);
            } else {
                assert forall|j: int| 0 <= j < after.len() implies (#[trigger] after[j]).entity_id
                    != other by {
                    if j < solutions.len() {
                        assert(solutions[j].entity_id != other);
                    }
                }
                lemma_place_is(after, other, after.len() as int);
            }
        }
    }
}

proof fn lemma_solutions(measures: Seq<Measure>)
    ensures
        distinct(solutions_of(measures)),
        forall|i: int|
            0 <= i < solutions_of(measures).len() ==> (#[trigger] solutions_of(
                measures,
            )[i]).terms.len() > 0,
        forall|entity_id: u32| #[trigger]
            terms_for(solutions_of(measures), entity_id) == contributions(measures, entity_id),
    decreases measures.len(),
{
    if measures.len() > 0 {
        let front = measures.drop_last();
        lemma_solutions(front);
        let before = solutions_of(front);
        let pair = (measures.len() - 1) as usize;
        let last = measures.last();
        if last.overlaps() {
            let direct = Term { pair, reversed: false };
            let reverse = Term { pair, reversed: true };
            let middle = appended(before, last.first, direct);
            lemma_appended(before, last.first, direct);
            lemma_appended(middle, last.second, reverse);
            assert forall|entity_id: u32| #[trigger]
                terms_for(solutions_of(measures), entity_id) == contributions(
                    measures,
                    entity_id,
                ) by {
                assert(terms_for(before, entity_id) == contributions(front, entity_id));
                assert(terms_for(before, last.first) == contributions(front, last.first));
                assert(terms_for(middle, entity_id) == (if entity_id == last.first {
                    terms_for(before, last.first).push(direct)
                } else {
                    terms_for(before, entity_id)
                }));
                assert(terms_for(middle, last.second) == (if last.second == last.first {
                    terms_for(before, last.first).push(direct)
                } else {
                    terms_for(before, last.second)
                }));
            }
        } else {
            assert forall|entity_id: u32| #[trigger]
                terms_for(solutions_of(measures), entity_id) == contributions(
                    measures,
                    entity_id,
                ) by {
                assert(terms_for(before, entity_id) == contributions(front, entity_id));
            }
        }
    }
}

/// At most one solution per body: no two solutions of a tick have one
/// entity id.
pub proof fn lemma_one_solution_per_body(measures: Seq<Measure>)
    ensures
        distinct(solutions_of(measures)),
{
    lemma_solutions(measures);
}

/// Aggregation: the solution of a body holds exactly the terms that the
/// body is owed, one for every overlap that it is part of, in the order
/// measured; and every solution holds at least one.
pub proof fn lemma_solution_collects_contributions(measures: Seq<Measure>, place: int)
    requires
        0 <= place < solutions_of(measures).len(),
    ensures
        solutions_of(measures)[place].terms == contributions(
            measures,
            solutions_of(measures)[place].entity_id,
        ),
        solutions_of(measures)[place].terms.len() > 0,
{
    lemma_solutions(measures);
    let solutions = solutions_of(measures);
    let entity_id = solutions[place].entity_id;
    assert forall|j: int| 0 <= j < place implies (#[trigger] solutions[j]).entity_id
        != entity_id by {
        assert(solutions[j].entity_id != solutions[place].entity_id);
    }
    lemma_place_is(solutions, entity_id, place);
    assert(terms_for(solutions, entity_id) == contributions(measures, entity_id));
}

/// A body has a solution exactly if it is part of an overlap.
pub proof fn lemma_participants_have_solutions(measures: Seq<Measure>, entity_id: u32)
    ensures
        contributions(measures, entity_id).len() > 0 <==> exists|place: int|
            0 <= place < solutions_of(measures).len() && (#[trigger] solutions_of(
                measures,
            )[place]).entity_id == entity_id,
{
    lemma_solutions(measures);
    let solutions = solutions_of(measures);
    lemma_first_place(solutions, entity_id, 0);
    let at = first_place(solutions, entity_id, 0);
    assert(terms_for(solutions, entity_id) == contributions(measures, entity_id));
    if at < solutions.len() {
        assert(solutions[at].entity_id == entity_id);
        assert(solutions[at].terms.len() > 0);
    } else {
        assert forall|place: int| 0 <= place < solutions.len() implies (
        #[trigger] solutions[place]).entity_id != entity_id by {}
    }
}

/// A body that overlaps two others which do not take part in any other
/// overlap collects the terms of both pairs, and each of the others the
/// reversed term of its own pair.
pub proof fn lemma_two_overlaps_are_summed(first: Measure, second: Measure)
    requires
        first.overlaps(),
        second.overlaps(),
        first.first != first.second,
        second.first != second.second,
        first.first == second.first,
        first.second != second.second,
    ensures
        contributions(seq![first, second], first.first) == seq![
            Term { pair: 0, reversed: false },
            Term { pair: 1, reversed: false },
        ],
        contributions(seq![first, second], first.second) == seq![
            Term { pair: 0, reversed: true },
        ],
        contributions(seq![first, second], second.second) == seq![
            Term { pair: 1, reversed: true },
        ],
{
    let both = seq![first, second];
    let one = seq![first];
    assert(both.drop_last() =~= one);
    assert(one.drop_last() =~= Seq::<Measure>::empty());
    assert(both.last() == second);
    assert(one.last() == first);
    reveal_with_fuel(contributions, 3);
    assert(contributions(both, first.first) =~= seq![
        Term { pair: 0, reversed: false },
        Term { pair: 1, reversed: false },
    ]);
    assert(contributions(both, first.second) =~= seq![Term { pair: 0, reversed: true }]);
    assert(contributions(both, second.second) =~= seq![Term { pair: 1, reversed: true }]);
}

/// Lets the body `entity_id` collect `term`.
pub fn append_solution(solutions: &mut Vec<CollisionSolution>, entity_id: u32, term: Term)
    ensures
        views(final(solutions)@) == appended(views(old(solutions)@), entity_id, term),
{
    let ghost before = views(solutions@);
    let mut at: usize = 0;
    while at < solutions.len()
        invariant
            at <= solutions.len(),
            before == views(old(solutions)@),
            views(solutions@) == before,
            forall|j: int| 0 <= j < at ==> (#[trigger] before[j]).entity_id != entity_id,
        decreases solutions.len() - at,
    {
        if solutions[at].entity_id == entity_id {
            proof {
                assert(before[at as int].entity_id == entity_id);
                lemma_place_is(before, entity_id, at as int);
            }
            solutions[at].terms.push(term);
            proof {
                assert(views(solutions@) =~= appended(before, entity_id, term));
            }
            return;
        }
        proof {
            assert(before[at as int].entity_id != entity_id);
        }
        at = at + 1;
    }
    proof {
        lemma_place_is(before, entity_id, before.len() as int);
    }
    let mut terms: Vec<Term> = Vec::new();
    terms.push(term);
    solutions.push(CollisionSolution { entity_id, terms });
    proof {
        assert(terms@ =~= seq![term]);
        assert(views(solutions@) =~= appended(before, entity_id, term));
    }
}

/// Finds the overlapping pairs among the measured ones and lets each body
/// collect its terms. The solutions stand in the order in which their bodies
/// first took part in an overlap.
pub fn collision_find(measures: &Vec<Measure>, data: &mut CollisionSystemData) -> (solutions: Vec<
    CollisionSolution,
>)
    ensures
        views(solutions@) == solutions_of(measures@),
        final(data).remembered() == solutions@.len(),
{
    let mut solutions: Vec<CollisionSolution> = Vec::with_capacity(data.previous_solutions);
    let mut pair: usize = 0;
    proof {
        assert(measures@.take(0) =~= Seq::<Measure>::empty());
        assert(views(solutions@) =~= solutions_of(measures@.take(0)));
    }
    while pair < measures.len()
        invariant
            pair <= measures.len(),
            views(solutions@) == solutions_of(measures@.take(pair as int)),
        decreases measures.len() - pair,
    {
        let measure = measures[pair];
        proof {
            let grown = measures@.take(pair + 1);
            assert(grown.drop_last() =~= measures@.take(pair as int));
            assert(grown.last() == measure);
        }
        if measure.is_overlap() {
            append_solution(&mut solutions, measure.first, Term { pair, reversed: false });
            append_solution(&mut solutions, measure.second, Term { pair, reversed: true });
        }
        pair = pair + 1;
    }
    proof {
        assert(measures@.take(pair as int) =~= measures@);
    }
    data.previous_solutions = solutions.len();
    solutions
}

/// Whether pair `a` comes before pair `b` in the order of measurement.
pub open spec fn pair_before(a: (usize, usize), b: (usize, usize)) -> bool {
    a.0 < b.0 || (a.0 == b.0 && a.1 < b.1)
}

/// Whether the pair of places `(first, second)` is in the schedule.
pub open spec fn scheduled(schedule: Seq<(usize, usize)>, first: usize, second: usize) -> bool {
    exists|k: int| 0 <= k < schedule.len() && #[trigger] schedule[k] == (first, second)
}

/// The pairs to measure among `count` bodies: every two distinct places
/// once, the smaller place first, in ascending order.
pub fn pairs(count: usize) -> (schedule: Vec<(usize, usize)>)
    ensures
        forall|k: int|
            0 <= k < schedule@.len() ==> (#[trigger] schedule@[k]).0 < schedule@[k].1 < count,
        forall|k: int, l: int|
            0 <= k < l < schedule@.len() ==> pair_before(
                #[trigger] schedule@[k],
                #[trigger] schedule@[l],
            ),
        forall|i: usize, j: usize| i < j < count ==> #[trigger] scheduled(schedule@, i, j),
{
    let mut schedule: Vec<(usize, usize)> = Vec::new();
    let mut first: usize = 0;
    while first < count
        invariant
            first <= count,
            forall|k: int|
                0 <= k < schedule@.len() ==> (#[trigger] schedule@[k]).0 < schedule@[k].1 < count
                    && schedule@[k].0 < first,
            forall|k: int, l: int|
                0 <= k < l < schedule@.len() ==> pair_before(
                    #[trigger] schedule@[k],
                    #[trigger] schedule@[l],
                ),
            forall|i: usize, j: usize|
                i < j < count && i < first ==> #[trigger] scheduled(schedule@, i, j),
        decreases count - first,
    {
        let mut second: usize = first + 1;
        while second < count
            invariant
                first < count,
                first < second <= count,
                forall|k: int|
                    0 <= k < schedule@.len() ==> (#[trigger] schedule@[k]).0 < schedule@[k].1
                        < count && (schedule@[k].0 < first || (schedule@[k].0 == first
                        && schedule@[k].1 < second)),
                forall|k: int, l: int|
                    0 <= k < l < schedule@.len() ==> pair_before(
                        #[trigger] schedule@[k],
                        #[trigger] schedule@[l],
                    ),
                forall|i: usize, j: usize|
                    i < j < count && (i < first || (i == first && j < second))
                        ==> #[trigger] scheduled(schedule@, i, j),
            decreases count - second,
        {
            let ghost before = schedule@;
            schedule.push((first, second));
            proof {
                let added = before.len() as int;
                assert(schedule@[added] == (first, second));
                assert forall|i: usize, j: usize|
                    i < j < count && (i < first || (i == first && j < second + 1))
                    implies #[trigger] scheduled(schedule@, i, j) by {
                    if i == first && j == second {
                        assert(schedule@[added] == (i, j));
                    } else {
                        assert(scheduled(before, i, j));
                        let k = choose|k: int|
                            0 <= k < before.len() && #[trigger] before[k] == (i, j);
                        assert(schedule@[k] == (i, j));
                    }
                }
            }
            second = second + 1;
        }
        first = first + 1;
    }
    schedule
}

} // verus!
