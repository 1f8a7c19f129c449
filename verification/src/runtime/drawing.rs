//! What is picked from a row of scores, stated over what the scores are worth.
use super::sampler;
use super::sampler::{Sampler, SamplingStrategy};
use super::unit;
use super::unit::Op;
use super::worth;
use vstd::prelude::*;

verus! {

/// What a score is worth.
pub open spec fn score(row: Seq<u32>, i: int) -> int {
    worth::worth(row[i] as int)
}

/// All scores are finite.
pub open spec fn all_finite(row: Seq<u32>) -> bool {
    forall|i: int| 0 <= i < row.len() ==> worth::finite(#[trigger] row[i] as int)
}

/// Places of a row, no two alike, from the largest score down, the first before the others that are
/// equal; and no score at any other place is larger than one at these.
pub open spec fn largest_first(row: Seq<u32>, places: Seq<int>) -> bool {
    &&& forall|a: int| 0 <= a < places.len() ==> 0 <= #[trigger] places[a] < row.len()
    &&& forall|a: int, b: int|
        0 <= a < b < places.len() ==> score(row, #[trigger] places[a]) > score(row, #[trigger] places[b]) || (score(row, places[a]) == score(
            row,
            places[b],
        ) && places[a] < places[b])
    &&& forall|j: int, a: int|
        0 <= j < row.len() && 0 <= a < places.len() && !places.contains(j) ==> #[trigger] score(row, j) <= score(row, #[trigger] places[a])
}

/// The scores at places.
pub open spec fn scores_at(row: Seq<u32>, places: Seq<int>) -> Seq<u32> {
    Seq::new(places.len(), |a: int| row[places[a]])
}

/// A drawn share falls on a place: the sums of the shares before it do not reach what was drawn, and
/// the sum up to it does, unless it is the last.
pub open spec fn lands_on<F: Fn(Op, &[u32], &[u32], &[u32]) -> Vec<u32>>(unit: F, shares: Seq<u32>, drawn: u32, i: int) -> bool {
    &&& 0 <= i < shares.len()
    &&& forall|n: int| 1 <= n <= i ==> !sampler::at_most(drawn, #[trigger] sampler::running_sum(unit, shares, n))
    &&& i + 1 < shares.len() ==> sampler::at_most(drawn, sampler::running_sum(unit, shares, i + 1))
}

/// What a lawful unit gives has the right width.
pub proof fn answer_has_its_width<F: Fn(Op, &[u32], &[u32], &[u32]) -> Vec<u32>>(unit: F, op: Op, x: Seq<u32>, y: Seq<u32>, z: Seq<u32>)
    requires
        unit::lawful(unit),
    ensures
        unit::value(unit, op, x, y, z).len() == op.width(x),
{
    if exists|r: Seq<u32>| #[trigger] unit::computes(unit, op, x, y, z, r) {
        let r = choose|r: Seq<u32>| #[trigger] unit::computes(unit, op, x, y, z, r);
        assert(r.len() == op.width(x));
    }
}

/// The sum of no shares is zero, and each share is added to the sum of those before it.
pub proof fn shares_are_added_one_by_one<F: Fn(Op, &[u32], &[u32], &[u32]) -> Vec<u32>>(unit: F, shares: Seq<u32>, n: int)
    requires
        unit::lawful(unit),
        0 <= n < shares.len(),
    ensures
        sampler::running_sum(unit, shares, 0) == 0,
        seq![sampler::running_sum(unit, shares, n + 1)] == unit::value(
            unit,
            Op::Plus,
            seq![sampler::running_sum(unit, shares, n)],
            seq![shares[n]],
            Seq::empty(),
        ),
{
    let sum = sampler::running_sum(unit, shares, n);
    answer_has_its_width(unit, Op::Plus, seq![sum], seq![shares[n]], Seq::empty());
    assert(seq![sampler::running_sum(unit, shares, n + 1)] =~= unit::value(unit, Op::Plus, seq![sum], seq![shares[n]], Seq::empty()));
}

/// Falling from is landing on.
proof fn falls_is_lands<F: Fn(Op, &[u32], &[u32], &[u32]) -> Vec<u32>>(unit: F, shares: Seq<u32>, drawn: u32, i: int)
    requires
        sampler::falls_on(unit, shares, drawn, i),
    ensures
        lands_on(unit, shares, drawn, i),
{
    assert forall|n: int| 1 <= n <= i implies !sampler::at_most(drawn, #[trigger] sampler::running_sum(unit, shares, n)) by {
        assert(!sampler::at_most(drawn, sampler::running_sum(unit, shares, (n - 1) + 1)));
    }
}

/// A falling order lists every place.
proof fn falling_lists_all(row: Seq<u32>, order: Seq<usize>, j: int)
    requires
        sampler::falling(row, order),
        0 <= j < row.len(),
    ensures
        exists|a: int| 0 <= a < order.len() && #[trigger] order[a] == j,
{
    let ints = Seq::new(order.len(), |a: int| order[a] as int);
    assert(ints.no_duplicates()) by {
        assert forall|a: int, b: int| 0 <= a < ints.len() && 0 <= b < ints.len() && a != b implies ints[a] != ints[b] by {
            let x = if a < b {
                a
            } else {
                b
            };
            let y = if a < b {
                b
            } else {
                a
            };
            assert(order[x] != order[y]);
        }
    }
    ints.unique_seq_to_set();
    let n = row.len() as int;
    vstd::set_lib::lemma_int_range(0, n);
    let all = vstd::set_lib::set_int_range(0, n);
    assert(ints.to_set().subset_of(all)) by {
        assert forall|x: int| ints.to_set().contains(x) implies all.contains(x) by {
            let a = choose|a: int| 0 <= a < ints.len() && ints[a] == x;
            assert(order[a] < row.len());
        }
    }
    vstd::set_lib::lemma_subset_equality(ints.to_set(), all);
    assert(ints.to_set().contains(j));
    let a = choose|a: int| 0 <= a < ints.len() && ints[a] == j;
    assert(order[a] == j);
}

/// The first places of a falling order are those of the largest scores.
proof fn front_is_largest(row: Seq<u32>, order: Seq<usize>, m: int)
    requires
        sampler::falling(row, order),
        all_finite(row),
        0 <= m <= order.len(),
    ensures
        largest_first(row, Seq::new(m as nat, |a: int| order[a] as int)),
        scores_at(row, Seq::new(m as nat, |a: int| order[a] as int)) == sampler::at_places(row, order.take(m)),
{
    let places = Seq::new(m as nat, |a: int| order[a] as int);
    assert forall|a: int| 0 <= a < places.len() implies 0 <= #[trigger] places[a] < row.len() by {
        assert(order[a] < row.len());
    }
    assert forall|a: int, b: int| 0 <= a < b < places.len() implies score(row, #[trigger] places[a]) > score(row, #[trigger] places[b]) || (score(
        row,
        places[a],
    ) == score(row, places[b]) && places[a] < places[b]) by {
        let x = order[a] as int;
        let y = order[b] as int;
        assert(worth::finite(row[x] as int) && worth::finite(row[y] as int));
        worth::at_most_is_worth_no_more(row[x], row[y]);
        worth::at_most_is_worth_no_more(row[y], row[x]);
    }
    assert forall|j: int, a: int| 0 <= j < row.len() && 0 <= a < places.len() && !places.contains(j) implies #[trigger] score(row, j) <= score(
        row,
        #[trigger] places[a],
    ) by {
        falling_lists_all(row, order, j);
        let b = choose|b: int| 0 <= b < order.len() && #[trigger] order[b] == j;
        if b < m {
            assert(places[b] == j);
        }
        let x = order[a] as int;
        assert(order[b] as int == j);
        assert(worth::finite(row[x] as int) && worth::finite(row[j] as int));
        worth::at_most_is_worth_no_more(row[j], row[x]);
    }
    assert(scores_at(row, places) =~= sampler::at_places(row, order.take(m)));
}

impl Sampler {
    /// Greedily the first of the largest scores is picked.
    pub proof fn greedy_takes_the_largest<F: Fn(Op, &[u32], &[u32], &[u32]) -> Vec<u32>>(self, unit: F, row: Seq<u32>, drawn: u32, token: u32)
        requires
            self.strategy is Greedy || (self.strategy is Temperature && worth::finite(self.strategy->Temperature_temperature as int)
                && worth::worth(self.strategy->Temperature_temperature as int) <= 0),
            all_finite(row),
            row.len() > 0,
            self.gives(unit, row, drawn, token),
        ensures
            token < row.len(),
            forall|j: int| 0 <= j < row.len() ==> #[trigger] score(row, j) <= score(row, token as int),
            forall|j: int| 0 <= j < token ==> #[trigger] score(row, j) < score(row, token as int),
    {
        if let SamplingStrategy::Temperature { temperature } = self.strategy {
            zero_is_worth_nothing();
            worth::at_most_is_worth_no_more(temperature, 0);
        }
        assert(worth::finite(row[0] as int));
        worth::at_most_is_worth_no_more(row[0], row[0]);
        assert(sampler::leads(row, token as int));
        assert forall|j: int| 0 <= j < row.len() implies #[trigger] score(row, j) <= score(row, token as int) && (j < token ==> score(row, j) < score(
            row,
            token as int,
        )) by {
            assert(worth::finite(row[j] as int) && worth::finite(row[token as int] as int));
            worth::at_most_is_worth_no_more(row[j], row[token as int]);
            worth::at_most_is_worth_no_more(row[token as int], row[j]);
        }
    }

    /// At a temperature above zero the token is the one that the drawn share falls on, where the
    /// shares are those of all scores at just that temperature.
    pub proof fn temperature_draws_from_all<F: Fn(Op, &[u32], &[u32], &[u32]) -> Vec<u32>>(
        self,
        unit: F,
        row: Seq<u32>,
        temperature: u32,
        drawn: u32,
        token: u32,
    )
        requires
            self.strategy == (SamplingStrategy::Temperature { temperature }),
            worth::finite(temperature as int),
            worth::worth(temperature as int) > 0,
            self.gives(unit, row, drawn, token),
        ensures
            lands_on(unit, unit::value(unit, Op::Softmax { temperature }, row, Seq::empty(), Seq::empty()), drawn, token as int),
    {
        zero_is_worth_nothing();
        worth::at_most_is_worth_no_more(temperature, 0);
        falls_is_lands(unit, unit::value(unit, Op::Softmax { temperature }, row, Seq::empty(), Seq::empty()), drawn, token as int);
    }

    /// Among the `k` largest scores the drawn share falls on the shares of just `k` of them, or of all
    /// where there are fewer, at just that temperature. Gives their places and where among them the
    /// share falls.
    pub proof fn top_k_draws_from_the_k_largest<F: Fn(Op, &[u32], &[u32], &[u32]) -> Vec<u32>>(
        self,
        unit: F,
        row: Seq<u32>,
        k: usize,
        temperature: u32,
        drawn: u32,
        token: u32,
    ) -> (r: (Seq<int>, int))
        requires
            self.strategy == (SamplingStrategy::TopK { k, temperature }),
            0 < k,
            0 < row.len(),
            unit::lawful(unit),
            all_finite(row),
            self.gives(unit, row, drawn, token),
        ensures
            r.0.len() == (if k < row.len() {
                k as nat
            } else {
                row.len()
            }),
            largest_first(row, r.0),
            lands_on(unit, unit::value(unit, Op::Softmax { temperature }, scores_at(row, r.0), Seq::empty(), Seq::empty()), drawn, r.1),
            0 <= r.1 < r.0.len(),
            token == r.0[r.1],
            k == 1 ==> forall|j: int| 0 <= j < row.len() ==> #[trigger] score(row, j) <= score(row, token as int),
    {
        let m = sampler::least(k as int, row.len() as int);
        let (order, i) = choose|order: Seq<usize>, i: int| #[trigger] sampler::among_top(unit, row, m, temperature, drawn, token, order, i);
        let places = Seq::new(m as nat, |a: int| order[a] as int);
        front_is_largest(row, order, m);
        falls_is_lands(unit, unit::value(unit, Op::Softmax { temperature }, scores_at(row, places), Seq::empty(), Seq::empty()), drawn, i);
        answer_has_its_width(unit, Op::Softmax { temperature }, scores_at(row, places), Seq::empty(), Seq::empty());
        if k == 1 {
            assert forall|j: int| 0 <= j < row.len() implies #[trigger] score(row, j) <= score(row, token as int) by {
                if places.contains(j) {
                    assert(places[0] == j);
                } else {
                    assert(score(row, j) <= score(row, places[0]));
                }
            }
        }
        (places, i)
    }

    /// By a share `p` the largest scores are taken until their shares reach it, no more of them than
    /// that takes, and the drawn share falls on theirs, made to be all again. Gives the places of all
    /// scores, how many of them are taken, and where among those the share falls.
    pub proof fn top_p_draws_from_the_fewest<F: Fn(Op, &[u32], &[u32], &[u32]) -> Vec<u32>>(
        self,
        unit: F,
        row: Seq<u32>,
        p: u32,
        temperature: u32,
        drawn: u32,
        token: u32,
    ) -> (r: (Seq<int>, int, int))
        requires
            self.strategy == (SamplingStrategy::TopP { p, temperature }),
            unit::lawful(unit),
            all_finite(row),
            self.gives(unit, row, drawn, token),
        ensures
            r.0.len() == row.len(),
            largest_first(row, r.0),
            ({
                let all = unit::value(unit, Op::Softmax { temperature }, scores_at(row, r.0), Seq::empty(), Seq::empty());
                let shares = unit::value(unit, Op::Share, all.take(r.1), Seq::empty(), Seq::empty());
                &&& 0 <= r.1 <= all.len()
                &&& forall|n: int| 1 <= n < r.1 ==> !sampler::at_most(p, #[trigger] sampler::running_sum(unit, all, n))
                &&& r.1 < all.len() ==> r.1 > 0 && sampler::at_most(p, sampler::running_sum(unit, all, r.1))
                &&& lands_on(unit, shares, drawn, r.2)
                &&& 0 <= r.2 < r.1
                &&& token == r.0[r.2]
            }),
    {
        let (order, n, i) = choose|order: Seq<usize>, n: int, i: int| #[trigger]
            sampler::among_likely(unit, row, p, temperature, drawn, token, order, n, i);
        let places = Seq::new(row.len(), |a: int| order[a] as int);
        front_is_largest(row, order, row.len() as int);
        assert(order.take(row.len() as int) =~= order);
        let all = unit::value(unit, Op::Softmax { temperature }, scores_at(row, places), Seq::empty(), Seq::empty());
        falls_is_lands(unit, unit::value(unit, Op::Share, all.take(n), Seq::empty(), Seq::empty()), drawn, i);
        answer_has_its_width(unit, Op::Share, all.take(n), Seq::empty(), Seq::empty());
        (places, n, i)
    }
}

/// Zero is worth nothing.
proof fn zero_is_worth_nothing()
    ensures
        worth::finite(0),
        worth::worth(0) == 0,
{
    assert(0 * worth::spacing(0) == 0);
}

} // verus!
