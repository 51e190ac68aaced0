//! Selection and ranking of arms by their sampled scores.
//!
//! A caller samples one percentile per arm from the arm's Beta posterior and
//! weighs it; the functions here decide from those numbers which arm is chosen
//! and in what order all of them stand.

use vstd::prelude::*;
use vstd::arithmetic::power2::{
    lemma2_to64, lemma2_to64_rest, lemma_pow2_adds, lemma_pow2_pos, pow2,
};
use crate::not_nan::{
    is_nan, lemma_value_of_one, lemma_value_order, value, NotNan, BINADE, MAX_BITS, MINUS_ONE_BITS,
    ONE_BITS, SIGN_BIT,
};

verus! {

/// Outcome counts of one arm: how often a run was interesting and how often it
/// was not.
#[derive(Debug, Clone, Copy)]
pub struct ThompsonInfo {
    pub interesting: u64,
    pub uninteresting: u64,
}

/// The pattern of the time scale, 100.0: the score of an arm of known runtime is
/// its percentile times the time scale over the runtime times its bias. The
/// scale sets how a unit of bias compares with a unit of runtime.
pub const TIME_SCALE_BITS: u64 = 0x4059_0000_0000_0000;

/// The time scale is a hundred times 1.0.
pub proof fn lemma_value_of_time_scale()
    ensures
        value(TIME_SCALE_BITS) == 100 * pow2(1074),
{
    lemma2_to64();
    lemma2_to64_rest();
    lemma_pow2_adds(46, 1028);
    assert(TIME_SCALE_BITS % SIGN_BIT == TIME_SCALE_BITS);
    assert(TIME_SCALE_BITS as int / (BINADE as int) == 1029);
    assert(TIME_SCALE_BITS as int % (BINADE as int) == 0x9_0000_0000_0000);
    let p = pow2(1028) as int;
    assert((BINADE + 0x9_0000_0000_0000) * p == 100 * (0x4000_0000_0000 * p)) by (nonlinear_arith);
}

/// The time scale.
pub fn time_scale() -> (r: NotNan)
    ensures
        r.bits() == TIME_SCALE_BITS,
        r@ == 100 * pow2(1074),
{
    proof {
        lemma_value_of_time_scale();
    }
    match NotNan::new(TIME_SCALE_BITS) {
        Ok(scale) => scale,
        Err(_) => unreached(),
    }
}

/// The score of an arm whose runtime is unknown: the largest finite double, so
/// that the arm is tried until a runtime is known.
pub open spec fn unknown_runtime_score() -> int {
    value(MAX_BITS)
}

/// The score that an arm must exceed to be selected at all: -1.0.
pub open spec fn selection_floor() -> int {
    value(MINUS_ONE_BITS)
}

/// The score of one arm under runtime weighting.
pub open spec fn skewed(weighted_point: NotNan, runtime: Option<NotNan>) -> int {
    if runtime is Some {
        weighted_point@
    } else {
        unknown_runtime_score()
    }
}

/// The scores of all arms without runtime weighting.
pub open spec fn scores(percentiles: Seq<NotNan>) -> Seq<int> {
    Seq::new(percentiles.len(), |i: int| percentiles[i]@)
}

/// The scores of all arms under runtime weighting.
pub open spec fn skewed_scores(percentiles: Seq<NotNan>, runtimes: Seq<Option<NotNan>>) -> Seq<
    int,
> {
    Seq::new(percentiles.len(), |i: int| skewed(percentiles[i], runtimes[i]))
}

/// `i` is the first position that holds the largest of `values`.
pub open spec fn is_first_maximum(values: Seq<int>, i: int) -> bool {
    &&& 0 <= i < values.len()
    &&& forall|j: int| 0 <= j < values.len() ==> #[trigger] values[j] <= values[i]
    &&& forall|j: int| 0 <= j < i ==> #[trigger] values[j] < values[i]
}

/// `choice` is the arm that is selected on `values`: the first to hold the
/// largest score, if that score exceeds the floor, and none otherwise.
pub open spec fn is_selection(values: Seq<int>, choice: Option<usize>) -> bool {
    match choice {
        Some(i) => is_first_maximum(values, i as int) && values[i as int] > selection_floor(),
        None => forall|j: int| 0 <= j < values.len() ==> #[trigger] values[j] <= selection_floor(),
    }
}

/// Arm `i` stands before arm `j` in a ranking: its score is larger, or the
/// scores are equal and `i` is the earlier arm.
pub open spec fn outranks(values: Seq<int>, i: int, j: int) -> bool {
    values[i] > values[j] || (values[i] == values[j] && i < j)
}

/// Arm `i` stands somewhere in `order`.
pub open spec fn places(order: Seq<usize>, i: int) -> bool {
    exists|k: int| 0 <= k < order.len() && #[trigger] order[k] == i
}

/// `order` ranks the first `count` arms: it holds each of them exactly once,
/// best first.
pub open spec fn ranks(values: Seq<int>, order: Seq<usize>, count: int) -> bool {
    &&& order.len() == count
    &&& forall|k: int| 0 <= k < count ==> (#[trigger] order[k]) < count
    &&& forall|i: int| 0 <= i < count ==> #[trigger] places(order, i)
    &&& forall|k: int, l: int|
        0 <= k < l < count ==> outranks(values, #[trigger] order[k] as int, #[trigger] order[l] as int)
}

/// `order` is the ranking of all arms on `values`.
pub open spec fn is_ranking(values: Seq<int>, order: Seq<usize>) -> bool {
    ranks(values, order, values.len() as int)
}

/// The score of one arm under runtime weighting.
///
/// `weighted_point` is the sampled percentile times the time scale over the
/// runtime times the bias of the arm; it counts only where the runtime is known.
pub fn skew_percentile(weighted_point: NotNan, runtime: &Option<NotNan>) -> (r: NotNan)
    ensures
        r.bits() == if runtime is Some {
            weighted_point.bits()
        } else {
            MAX_BITS
        },
        r@ == skewed(weighted_point, *runtime),
{
    match runtime {
        Some(_) => weighted_point,
        None => NotNan::max_value(),
    }
}

/// Picks a single arm by its weighted percentile. Ignores runtime.
pub fn thompson_sampling(percentiles: &[NotNan]) -> (choice: Option<usize>)
    ensures
        is_selection(scores(percentiles@), choice),
        percentiles@.len() == 0 ==> choice is None,
{
    let ghost values = scores(percentiles@);
    let mut selected: Option<usize> = None;
    let mut best: NotNan = NotNan::minus_one();
    proof {
        lemma_value_of_one();
    }
    let mut index: usize = 0;
    while index < percentiles.len()
        invariant
            index <= percentiles.len(),
            values == scores(percentiles@),
            forall|j: int| 0 <= j < index ==> #[trigger] values[j] <= best@,
            match selected {
                Some(i) => i < index && values[i as int] == best@ && best@ > selection_floor()
                    && forall|j: int| 0 <= j < i ==> #[trigger] values[j] < best@,
                None => best@ == selection_floor(),
            },
        decreases percentiles.len() - index,
    {
        let percentile: NotNan = percentiles[index];
        if percentile.gt(&best) {
            selected = Some(index);
            best = percentile;
        }
        index += 1;
    }
    selected
}

/// Picks a single arm by its weighted percentile, preferring low runtime. An
/// arm without a known runtime scores highest.
pub fn thompson_sampling_bias_runtime(percentiles: &[NotNan], runtimes: &[Option<NotNan>]) -> (choice:
    Option<usize>)
    requires
        percentiles@.len() <= runtimes@.len(),
    ensures
        is_selection(skewed_scores(percentiles@, runtimes@), choice),
        percentiles@.len() == 0 ==> choice is None,
{
    let ghost values = skewed_scores(percentiles@, runtimes@);
    let mut selected: Option<usize> = None;
    let mut best: NotNan = NotNan::minus_one();
    proof {
        lemma_value_of_one();
    }
    let mut index: usize = 0;
    while index < percentiles.len()
        invariant
            index <= percentiles.len(),
            percentiles@.len() <= runtimes@.len(),
            values == skewed_scores(percentiles@, runtimes@),
            forall|j: int| 0 <= j < index ==> #[trigger] values[j] <= best@,
            match selected {
                Some(i) => i < index && values[i as int] == best@ && best@ > selection_floor()
                    && forall|j: int| 0 <= j < i ==> #[trigger] values[j] < best@,
                None => best@ == selection_floor(),
            },
        decreases percentiles.len() - index,
    {
        let skewed_percentile: NotNan = skew_percentile(percentiles[index], &runtimes[index]);
        if skewed_percentile.gt(&best) {
            selected = Some(index);
            best = skewed_percentile;
        }
        index += 1;
    }
    selected
}

/// Ranks arms by the given scores, best first; among equal scores the earlier
/// arm stands first.
fn rank_scores(arm_scores: &[NotNan]) -> (order: Vec<usize>)
    ensures
        is_ranking(scores(arm_scores@), order@),
{
    let ghost values = scores(arm_scores@);
    let count: usize = arm_scores.len();
    let mut order: Vec<usize> = Vec::new();
    let mut index: usize = 0;
    while index < count
        invariant
            index <= count,
            count == arm_scores@.len(),
            values == scores(arm_scores@),
            ranks(values, order@, index as int),
        decreases count - index,
    {
        let score: NotNan = arm_scores[index];
        let mut position: usize = 0;
        while position < order.len() && !arm_scores[order[position]].lt(&score)
            invariant
                position <= order.len(),
                index < count,
                count == arm_scores@.len(),
                values == scores(arm_scores@),
                score@ == values[index as int],
                ranks(values, order@, index as int),
                forall|k: int| 0 <= k < position ==> values[#[trigger] order@[k] as int] >= score@,
            decreases order.len() - position,
        {
            position += 1;
        }
        let ghost before = order@;
        order.insert(position, index);
        proof {
            let after = order@;
            assert forall|k: int| 0 <= k < index + 1 implies (#[trigger] after[k]) < index + 1 by {
                if k < position {
                    assert(after[k] == before[k]);
                } else if k > position {
                    assert(after[k] == before[k - 1]);
                }
            }
            assert forall|i: int| 0 <= i < index + 1 implies #[trigger] places(after, i) by {
                if i == index {
                    assert(after[position as int] == i);
                } else {
                    assert(places(before, i));
                    let k0 = choose|k: int| 0 <= k < index && #[trigger] before[k] == i;
                    if k0 < position {
                        assert(after[k0] == i);
                    } else {
                        assert(after[k0 + 1] == before[k0]);
                    }
                }
            }
            assert forall|k: int, l: int| 0 <= k < l < index + 1 implies outranks(
                values,
                #[trigger] after[k] as int,
                #[trigger] after[l] as int,
            ) by {
                if l < position {
                    assert(after[k] == before[k] && after[l] == before[l]);
                } else if l == position {
                    assert(after[k] == before[k]);
                } else if k < position {
                    assert(after[k] == before[k] && after[l] == before[l - 1]);
                } else if k == position {
                    assert(after[l] == before[l - 1]);
                    if position < l - 1 {
                        assert(outranks(values, before[position as int] as int, before[l - 1] as int));
                    }
                } else {
                    assert(after[k] == before[k - 1] && after[l] == before[l - 1]);
                }
            }
        }
        index += 1;
    }
    order
}

/// Ranks all arms by their percentiles, best first; among equal percentiles the
/// earlier arm stands first. Ignores runtime.
///
/// `[0, 2, 1]` says that the first arm is ranked first, the third second and
/// the second third.
pub fn thompson_ranking(percentiles: &[NotNan]) -> (order: Vec<usize>)
    ensures
        is_ranking(scores(percentiles@), order@),
{
    rank_scores(percentiles)
}

/// Ranks all arms by their weighted percentiles, best first, preferring low
/// runtime; among equal scores the earlier arm stands first. An arm without a
/// known runtime scores highest.
pub fn thompson_ranking_bias_runtime(percentiles: &[NotNan], runtimes: &[Option<NotNan>]) -> (order:
    Vec<usize>)
    requires
        percentiles@.len() <= runtimes@.len(),
    ensures
        is_ranking(skewed_scores(percentiles@, runtimes@), order@),
{
    let mut skewed_percentiles: Vec<NotNan> = Vec::new();
    let mut index: usize = 0;
    while index < percentiles.len()
        invariant
            index <= percentiles.len(),
            percentiles@.len() <= runtimes@.len(),
            skewed_percentiles@.len() == index,
            forall|i: int|
                0 <= i < index ==> (#[trigger] skewed_percentiles@[i])@ == skewed(
                    percentiles@[i],
                    runtimes@[i],
                ),
        decreases percentiles.len() - index,
    {
        skewed_percentiles.push(skew_percentile(percentiles[index], &runtimes[index]));
        index += 1;
    }
    assert(scores(skewed_percentiles@) =~= skewed_scores(percentiles@, runtimes@));
    rank_scores(skewed_percentiles.as_slice())
}

/// The scores fix the selection: two selections on the same scores are equal.
pub proof fn lemma_selection_is_unique(values: Seq<int>, first: Option<usize>, second: Option<usize>)
    requires
        is_selection(values, first),
        is_selection(values, second),
    ensures
        first == second,
{
    match (first, second) {
        (Some(i), Some(j)) => {
            if i < j {
                assert(values[i as int] < values[j as int]);
                assert(values[j as int] <= values[i as int]);
            } else if j < i {
                assert(values[j as int] < values[i as int]);
                assert(values[i as int] <= values[j as int]);
            }
        },
        (Some(i), None) => {
            assert(values[i as int] <= selection_floor());
        },
        (None, Some(j)) => {
            assert(values[j as int] <= selection_floor());
        },
        (None, None) => {},
    }
}

/// An arm is selected exactly when some score exceeds the floor. Where no score
/// is negative, that is whenever there is an arm at all.
pub proof fn lemma_selection_is_owed(values: Seq<int>, choice: Option<usize>)
    requires
        is_selection(values, choice),
    ensures
        choice is Some <==> exists|j: int| 0 <= j < values.len() && #[trigger] values[j] > selection_floor(),
        values.len() > 0 && (forall|j: int| 0 <= j < values.len() ==> #[trigger] values[j] >= 0)
            ==> choice is Some,
{
    lemma_value_of_one();
    lemma_pow2_pos(1074);
    if choice is None && values.len() > 0 {
        assert(values[0] <= selection_floor());
    }
    if choice is Some {
        assert(values[choice->Some_0 as int] > selection_floor());
    }
}

/// An only arm is selected, unless its score is negative.
pub proof fn lemma_only_arm_is_selected(values: Seq<int>, choice: Option<usize>)
    requires
        values.len() == 1,
        values[0] >= 0,
        is_selection(values, choice),
    ensures
        choice == Some(0usize),
{
    lemma_selection_is_owed(values, choice);
}

/// Of two arms the one with the larger score is selected, whichever of them
/// stands first, if that score exceeds the floor.
pub proof fn lemma_larger_of_two_is_selected(values: Seq<int>, choice: Option<usize>)
    requires
        values.len() == 2,
        values[0] != values[1],
        values[0] > selection_floor() || values[1] > selection_floor(),
        is_selection(values, choice),
    ensures
        choice == Some(
            if values[0] > values[1] {
                0usize
            } else {
                1usize
            },
        ),
{
    match choice {
        Some(i) => {
            assert(values[0] <= values[i as int] && values[1] <= values[i as int]);
        },
        None => {
            assert(values[0] <= selection_floor() && values[1] <= selection_floor());
        },
    }
}

/// Every arm stands in a ranking exactly once.
pub proof fn lemma_ranking_is_permutation(values: Seq<int>, order: Seq<usize>)
    requires
        is_ranking(values, order),
    ensures
        order.len() == values.len(),
        forall|k: int| 0 <= k < order.len() ==> (#[trigger] order[k]) < values.len(),
        forall|i: int| 0 <= i < values.len() ==> #[trigger] places(order, i),
        forall|k: int, l: int|
            0 <= k < l < order.len() ==> #[trigger] order[k] != #[trigger] order[l],
{
    assert forall|k: int, l: int| 0 <= k < l < order.len() implies #[trigger] order[k]
        != #[trigger] order[l] by {
        assert(outranks(values, order[k] as int, order[l] as int));
    }
}

/// The scores fix the ranking: two rankings on the same scores are equal.
pub proof fn lemma_ranking_is_unique(values: Seq<int>, first: Seq<usize>, second: Seq<usize>)
    requires
        is_ranking(values, first),
        is_ranking(values, second),
    ensures
        first == second,
{
    lemma_rankings_agree(values, first, second, values.len() as int);
    assert(first =~= second);
}

proof fn lemma_rankings_agree(values: Seq<int>, first: Seq<usize>, second: Seq<usize>, upto: int)
    requires
        is_ranking(values, first),
        is_ranking(values, second),
        0 <= upto <= values.len(),
    ensures
        forall|k: int| 0 <= k < upto ==> first[k] == second[k],
    decreases upto,
{
    if upto > 0 {
        let k = upto - 1;
        lemma_rankings_agree(values, first, second, k);
        lemma_ranking_is_permutation(values, first);
        lemma_ranking_is_permutation(values, second);
        let x = first[k];
        let y = second[k];
        if x != y {
            assert(places(second, x as int));
            let l = choose|l: int| 0 <= l < second.len() && #[trigger] second[l] == x as int;
            assert(l > k) by {
                if l < k {
                    assert(first[l] == second[l]);
                }
            }
            assert(outranks(values, second[k] as int, second[l] as int));
            assert(places(first, y as int));
            let m = choose|m: int| 0 <= m < first.len() && #[trigger] first[m] == y as int;
            assert(m > k) by {
                if m < k {
                    assert(first[m] == second[m]);
                }
            }
            assert(outranks(values, first[k] as int, first[m] as int));
        }
    }
}

/// A ranking begins with the first arm that holds the largest score: the arm
/// that a selection picks, where it picks one.
pub proof fn lemma_ranking_starts_with_first_maximum(values: Seq<int>, order: Seq<usize>)
    requires
        is_ranking(values, order),
        values.len() > 0,
    ensures
        is_first_maximum(values, order[0] as int),
{
    let top = order[0] as int;
    assert forall|j: int| 0 <= j < values.len() implies #[trigger] values[j] <= values[top]
        && (j < top ==> values[j] < values[top]) by {
        assert(places(order, j));
        let l = choose|l: int| 0 <= l < order.len() && #[trigger] order[l] == j;
        if l > 0 {
            assert(outranks(values, order[0] as int, order[l] as int));
        }
    }
}

/// Under runtime weighting the first arm of unknown runtime is selected, unless
/// an arm of known runtime scores above the largest finite double, or scores
/// that double and stands before every arm of unknown runtime.
pub proof fn lemma_unknown_runtime_is_selected(
    percentiles: Seq<NotNan>,
    runtimes: Seq<Option<NotNan>>,
    unknown: int,
    choice: Option<usize>,
)
    requires
        percentiles.len() <= runtimes.len(),
        0 <= unknown < percentiles.len(),
        runtimes[unknown] is None,
        forall|j: int| 0 <= j < unknown ==> (#[trigger] runtimes[j]) is Some,
        forall|j: int|
            0 <= j < percentiles.len() && (#[trigger] runtimes[j]) is Some ==> percentiles[j]@
                <= unknown_runtime_score(),
        forall|j: int|
            0 <= j < unknown ==> (#[trigger] percentiles[j])@ != unknown_runtime_score(),
        is_selection(skewed_scores(percentiles, runtimes), choice),
    ensures
        choice == Some(unknown as usize),
{
    let values = skewed_scores(percentiles, runtimes);
    lemma_value_order(MINUS_ONE_BITS, MAX_BITS);
    assert(values[unknown] == unknown_runtime_score());
    assert(values[unknown] > selection_floor());
    match choice {
        Some(i) => {
            if i < unknown {
                assert(values[unknown] <= values[i as int]);
                assert(runtimes[i as int] is Some);
                assert(percentiles[i as int]@ != unknown_runtime_score());
            } else if i > unknown {
                assert(values[unknown] < values[i as int]);
                assert(runtimes[i as int] is Some);
            }
        },
        None => {
            assert(values[unknown] <= selection_floor());
        },
    }
}

/// What can be wrong with the numbers of a Beta quantile.
#[derive(Debug, Clone, Copy, PartialEq, Eq, Structural)]
pub enum BetaError {
    /// An argument lies outside the domain: the area is no number in [0, 1].
    InvalidDomain,
    /// The inversion produced no number in [0, 1].
    Nonconvergence,
}

/// The arguments of the inverse regularized incomplete beta function that give
/// a quantile of the posterior of one arm.
#[derive(Debug, Clone, Copy)]
pub struct Quantile {
    /// The area below the quantile, in [0, 1].
    pub area: NotNan,
    /// The first shape parameter: one more than the interesting runs.
    pub alpha: u128,
    /// The second shape parameter: one more than the uninteresting runs.
    pub beta: u128,
}

/// Whether a pattern is a number in [0, 1].
pub open spec fn in_unit_interval(bits: u64) -> bool {
    !is_nan(bits) && 0 <= value(bits) <= value(ONE_BITS)
}

/// Takes a pattern if it is a number in [0, 1].
fn unit_interval(bits: u64) -> (r: Option<NotNan>)
    ensures
        r is Some <==> in_unit_interval(bits),
        r is Some ==> r->Some_0.bits() == bits,
{
    match NotNan::new(bits) {
        Ok(number) => {
            if number.lt(&NotNan::zero()) || NotNan::one().lt(&number) {
                proof {
                    lemma_value_of_one();
                }
                None
            } else {
                proof {
                    lemma_value_of_one();
                }
                Some(number)
            }
        },
        Err(_) => None,
    }
}

impl ThompsonInfo {
    /// The shape parameters of the Beta posterior that a uniform prior and the
    /// counted outcomes give; neither is ever below one.
    pub fn posterior(&self) -> (r: (u128, u128))
        ensures
            r.0 == self.interesting + 1,
            r.1 == self.uninteresting + 1,
    {
        (self.interesting as u128 + 1, self.uninteresting as u128 + 1)
    }

    /// Prepares the quantile of the posterior below which `area` of the
    /// probability mass lies. `area` is the pattern of a double; one that is no
    /// number in [0, 1] is refused.
    pub fn quantile(&self, area: u64) -> (r: Result<Quantile, BetaError>)
        ensures
            r is Ok <==> in_unit_interval(area),
            r is Ok ==> r->Ok_0.area.bits() == area && r->Ok_0.alpha == self.interesting + 1
                && r->Ok_0.beta == self.uninteresting + 1,
            r is Err ==> r->Err_0 == BetaError::InvalidDomain,
    {
        match unit_interval(area) {
            Some(area) => {
                let shape = self.posterior();
                Ok(Quantile { area, alpha: shape.0, beta: shape.1 })
            },
            None => Err(BetaError::InvalidDomain),
        }
    }
}

/// Takes the pattern that the inversion returned as a percentile. One that is no
/// number in [0, 1] is reported, never passed on.
pub fn percentile(bits: u64) -> (r: Result<NotNan, BetaError>)
    ensures
        r is Ok <==> in_unit_interval(bits),
        r is Ok ==> r->Ok_0.bits() == bits,
        r is Err ==> r->Err_0 == BetaError::Nonconvergence,
{
    match unit_interval(bits) {
        Some(number) => Ok(number),
        None => Err(BetaError::Nonconvergence),
    }
}

} // verus!
