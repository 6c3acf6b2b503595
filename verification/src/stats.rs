//! Statistics of the measured times.

use vstd::prelude::*;
use vstd::relations::*;
use vstd::seq_lib::*;

verus! {

/// The sum of the samples.
pub open spec fn total(samples: Seq<u128>) -> nat
    decreases samples.len(),
{
    if samples.len() == 0 {
        0
    } else {
        total(samples.drop_last()) + samples.last() as nat
    }
}

/// The usual order of numbers.
pub open spec fn at_most() -> spec_fn(u128, u128) -> bool {
    |a: u128, b: u128| a <= b
}

/// The samples in ascending order.
pub open spec fn in_order(samples: Seq<u128>) -> Seq<u128> {
    samples.sort_by(at_most())
}

/// The smallest sample.
pub open spec fn least(samples: Seq<u128>) -> u128 {
    in_order(samples)[0]
}

/// The sample in the middle; of an even number the upper one of the two.
pub open spec fn median(samples: Seq<u128>) -> u128 {
    in_order(samples)[samples.len() as int / 2]
}

/// The average, rounded down.
pub open spec fn mean(samples: Seq<u128>) -> nat {
    total(samples) / samples.len()
}

/// Sorts numbers in ascending order: `sort_unstable` of slices.
#[verifier::external_body]
pub(crate) fn sort_numbers(numbers: &mut Vec<u128>)
    ensures
        sorted_by(final(numbers)@, at_most()),
        final(numbers)@.to_multiset() == old(numbers)@.to_multiset(),
{
    numbers.sort_unstable();
}

/// The least, the median and the mean of some samples.
#[derive(Clone, Copy, Debug)]
pub struct Summary {
    pub least: u128,
    pub median: u128,
    pub mean: u128,
}

/// Comparing numbers is a total order.
proof fn lemma_total_order()
    ensures
        total_ordering(at_most()),
{
}

/// Sorting keeps the samples and puts them in order.
proof fn lemma_in_order(samples: Seq<u128>)
    ensures
        sorted_by(in_order(samples), at_most()),
        in_order(samples).to_multiset() == samples.to_multiset(),
        in_order(samples).len() == samples.len(),
{
    lemma_total_order();
    samples.lemma_sort_by_ensures(at_most());
    samples.to_multiset_ensures();
    in_order(samples).to_multiset_ensures();
}

/// The sum of the samples, if it can be represented.
pub fn checked_total(samples: &Vec<u128>) -> (res: Option<u128>)
    ensures
        res is Some == (total(samples@) <= u128::MAX),
        res matches Some(sum) ==> sum == total(samples@),
{
    let mut sum: u128 = 0;
    let mut i: usize = 0;
    while i < samples.len()
        invariant
            0 <= i <= samples.len(),
            sum == total(samples@.take(i as int)),
        decreases samples.len() - i,
    {
        proof {
            assert(samples@.take(i + 1).drop_last() =~= samples@.take(i as int));
            lemma_total_of_prefix(samples@, i + 1);
        }
        match sum.checked_add(samples[i]) {
            Some(more) => {
                sum = more;
            },
            None => {
                return None;
            },
        }
        i = i + 1;
    }
    proof {
        assert(samples@.take(i as int) =~= samples@);
    }
    Some(sum)
}

/// The first samples have no larger a sum than all of them.
proof fn lemma_total_of_prefix(samples: Seq<u128>, n: int)
    requires
        0 <= n <= samples.len(),
    ensures
        total(samples.take(n)) <= total(samples),
    decreases samples.len(),
{
    if n == samples.len() {
        assert(samples.take(n) =~= samples);
    } else {
        assert(samples.drop_last().take(n) =~= samples.take(n));
        lemma_total_of_prefix(samples.drop_last(), n);
    }
}

/// Sums up the samples. There is at least one, and their sum can be
/// represented, see [`checked_total`].
pub fn summarize(samples: &Vec<u128>) -> (res: Summary)
    requires
        samples.len() > 0,
        total(samples@) <= u128::MAX,
    ensures
        res.least == least(samples@),
        res.median == median(samples@),
        res.mean == mean(samples@),
{
    let mut sorted: Vec<u128> = samples.clone();
    assert(sorted@ =~= samples@);
    sort_numbers(&mut sorted);
    proof {
        lemma_total_order();
        lemma_in_order(samples@);
        lemma_sorted_unique(sorted@, in_order(samples@), at_most());
    }
    let sum: u128 = checked_total(samples).unwrap();
    Summary {
        least: sorted[0],
        median: sorted[sorted.len() / 2],
        mean: sum / (samples.len() as u128),
    }
}

/// Taking one sample away takes it off the sum.
proof fn lemma_total_without(samples: Seq<u128>, i: int)
    requires
        0 <= i < samples.len(),
    ensures
        total(samples) == total(samples.remove(i)) + samples[i],
    decreases samples.len(),
{
    let rest = samples.drop_last();
    if i == samples.len() - 1 {
        assert(samples.remove(i) =~= rest);
    } else {
        lemma_total_without(rest, i);
        assert(samples.remove(i).drop_last() =~= rest.remove(i));
        assert(samples.remove(i).last() == samples.last());
    }
}

/// The sum does not depend on the order of the samples.
proof fn lemma_total_of_reordered(samples: Seq<u128>, others: Seq<u128>)
    requires
        samples.to_multiset() == others.to_multiset(),
    ensures
        total(samples) == total(others),
        samples.len() == others.len(),
    decreases samples.len(),
{
    broadcast use vstd::multiset::group_multiset_axioms;
    broadcast use group_to_multiset_ensures;

    samples.to_multiset_ensures();
    others.to_multiset_ensures();
    if samples.len() > 0 {
        let last = samples.last();
        assert(samples.contains(last));
        assert(others.to_multiset().contains(last));
        let i = choose|i: int| 0 <= i < others.len() && others[i] == last;
        lemma_total_without(others, i);
        assert(samples.remove(samples.len() - 1) =~= samples.drop_last());
        assert(samples.drop_last().to_multiset() =~= samples.to_multiset().remove(last));
        assert(others.remove(i).to_multiset() =~= others.to_multiset().remove(last));
        lemma_total_of_reordered(samples.drop_last(), others.remove(i));
    }
}

/// The summary does not depend on the order in which the samples were taken.
pub proof fn summary_ignores_the_order(samples: Seq<u128>, others: Seq<u128>)
    requires
        samples.to_multiset() == others.to_multiset(),
    ensures
        least(samples) == least(others),
        median(samples) == median(others),
        mean(samples) == mean(others),
{
    lemma_total_order();
    lemma_in_order(samples);
    lemma_in_order(others);
    lemma_sorted_unique(in_order(samples), in_order(others), at_most());
    lemma_total_of_reordered(samples, others);
}

/// The least sample is one of the samples and none is smaller.
pub proof fn least_is_a_lower_bound(samples: Seq<u128>)
    requires
        samples.len() > 0,
    ensures
        samples.contains(least(samples)),
        forall|i: int| 0 <= i < samples.len() ==> least(samples) <= #[trigger] samples[i],
{
    broadcast use vstd::multiset::group_multiset_axioms;
    broadcast use group_to_multiset_ensures;

    lemma_in_order(samples);
    let sorted = in_order(samples);
    assert(sorted.contains(sorted[0]));
    assert(samples.to_multiset().contains(sorted[0]));
    assert forall|i: int| 0 <= i < samples.len() implies least(samples) <= #[trigger] samples[i] by {
        assert(samples.contains(samples[i]));
        assert(sorted.to_multiset().contains(samples[i]));
        let j = choose|j: int| 0 <= j < sorted.len() && sorted[j] == samples[i];
        if j > 0 {
            assert(at_most()(sorted[0], sorted[j]));
        }
    }
}

/// The sum is at least the number of samples times a lower bound.
proof fn lemma_total_at_least(samples: Seq<u128>, bound: nat)
    requires
        forall|i: int| 0 <= i < samples.len() ==> bound <= #[trigger] samples[i],
    ensures
        samples.len() * bound <= total(samples),
    decreases samples.len(),
{
    if samples.len() > 0 {
        lemma_total_at_least(samples.drop_last(), bound);
        assert(samples.last() == samples[samples.len() - 1]);
        assert(samples.len() * bound == (samples.len() - 1) * bound + bound) by (nonlinear_arith)
            requires
                samples.len() > 0,
        ;
    }
}

/// Neither the median nor the mean is below the least sample, and the median
/// is one of the samples.
pub proof fn median_and_mean_are_not_below_the_least(samples: Seq<u128>)
    requires
        samples.len() > 0,
    ensures
        least(samples) <= median(samples),
        least(samples) <= mean(samples),
        samples.contains(median(samples)),
{
    broadcast use vstd::multiset::group_multiset_axioms;
    broadcast use group_to_multiset_ensures;

    lemma_in_order(samples);
    least_is_a_lower_bound(samples);
    let sorted = in_order(samples);
    let middle = samples.len() as int / 2;
    if middle > 0 {
        assert(at_most()(sorted[0], sorted[middle]));
    }
    assert(sorted.contains(sorted[middle]));
    assert(samples.to_multiset().contains(sorted[middle]));
    lemma_total_at_least(samples, least(samples) as nat);
    vstd::arithmetic::div_mod::lemma_div_is_ordered(
        (samples.len() * least(samples) as nat) as int,
        total(samples) as int,
        samples.len() as int,
    );
    vstd::arithmetic::div_mod::lemma_div_multiples_vanish(
        least(samples) as int,
        samples.len() as int,
    );
}

/// As many samples stand before the median as half of them, rounded down, and
/// none of these is above it; none of those behind it is below it.
pub proof fn the_median_is_in_the_middle(samples: Seq<u128>)
    requires
        samples.len() > 0,
    ensures
        in_order(samples).to_multiset() == samples.to_multiset(),
        forall|i: int|
            0 <= i <= samples.len() / 2 ==> #[trigger] in_order(samples)[i] <= median(samples),
        forall|i: int|
            samples.len() / 2 <= i < samples.len() ==> median(samples) <= #[trigger] in_order(
                samples,
            )[i],
{
    lemma_in_order(samples);
    let sorted = in_order(samples);
    let middle = samples.len() as int / 2;
    assert forall|i: int| 0 <= i <= middle implies #[trigger] sorted[i] <= sorted[middle] by {
        if i < middle {
            assert(at_most()(sorted[i], sorted[middle]));
        }
    }
    assert forall|i: int| middle <= i < samples.len() implies sorted[middle] <= #[trigger] sorted[
        i
    ] by {
        if middle < i {
            assert(at_most()(sorted[middle], sorted[i]));
        }
    }
}

/// The sum of a sample is the sample, and sums of parts add up to the whole.
pub proof fn sums_add_up(samples: Seq<u128>, more: Seq<u128>, sample: u128)
    ensures
        total(Seq::empty()) == 0,
        total(seq![sample]) == sample,
        total(samples + more) == total(samples) + total(more),
    decreases more.len(),
{
    assert(seq![sample].drop_last() =~= Seq::<u128>::empty());
    assert(total(seq![sample].drop_last()) == 0);
    if more.len() == 0 {
        assert(samples + more =~= samples);
    } else {
        sums_add_up(samples, more.drop_last(), sample);
        assert((samples + more).drop_last() =~= samples + more.drop_last());
        assert((samples + more).last() == more.last());
    }
}

/// The mean is the largest whole number that, taken as often as there are
/// samples, is not above their sum.
pub proof fn the_mean_is_the_sum_in_equal_shares(samples: Seq<u128>)
    requires
        samples.len() > 0,
    ensures
        mean(samples) * samples.len() <= total(samples),
        total(samples) < (mean(samples) + 1) * samples.len(),
{
    let sum = total(samples) as int;
    let len = samples.len() as int;
    vstd::arithmetic::div_mod::lemma_fundamental_div_mod(sum, len);
    vstd::arithmetic::div_mod::lemma_mod_bound(sum, len);
    let share = sum / len;
    assert(len * share == share * len) by (nonlinear_arith);
    assert((share + 1) * len == share * len + len) by (nonlinear_arith);
}

/// In order, no sample stands before a smaller one, and the samples are the
/// same.
pub proof fn samples_are_put_in_order(samples: Seq<u128>)
    ensures
        in_order(samples).len() == samples.len(),
        in_order(samples).to_multiset() == samples.to_multiset(),
        forall|i: int, j: int|
            0 <= i < j < samples.len() ==> #[trigger] in_order(samples)[i]
                <= #[trigger] in_order(samples)[j],
{
    lemma_in_order(samples);
    let sorted = in_order(samples);
    assert forall|i: int, j: int| 0 <= i < j < samples.len() implies #[trigger] sorted[i]
        <= #[trigger] sorted[j] by {
        assert(at_most()(sorted[i], sorted[j]));
    }
}

} // verus!
