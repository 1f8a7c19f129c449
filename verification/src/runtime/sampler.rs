//! Picking the next token from its scores.
use super::unit;
use super::unit::Op;
use vstd::prelude::*;

verus! {

/// The bits of a float that is no number.
pub open spec fn is_nan(bits: u32) -> bool {
    bits % 0x8000_0000 > 0x7f80_0000
}

/// The place of a float among all floats: equal for equal floats, larger for larger ones.
pub open spec fn rank(bits: u32) -> int {
    if bits < 0x8000_0000 {
        bits as int
    } else {
        0x8000_0000 - bits
    }
}

/// A float is at most another.
pub open spec fn at_most(a: u32, b: u32) -> bool {
    !is_nan(a) && !is_nan(b) && rank(a) <= rank(b)
}

/// Place `i` holds the first of the largest scores that are numbers.
pub open spec fn leads(row: Seq<u32>, i: int) -> bool {
    &&& 0 <= i < row.len()
    &&& !is_nan(row[i])
    &&& forall|j: int| 0 <= j < row.len() && !is_nan(#[trigger] row[j]) ==> rank(row[j]) <= rank(row[i])
    &&& forall|j: int| 0 <= j < i && !is_nan(#[trigger] row[j]) ==> rank(row[j]) < rank(row[i])
}

/// The greedy choice: the first of the largest scores, or the first place where no score is a
/// number.
pub open spec fn greediest(row: Seq<u32>, token: u32) -> bool {
    leads(row, token as int) || (token == 0 && forall|j: int| 0 <= j < row.len() ==> is_nan(#[trigger] row[j]))
}

/// There is one greedy choice.
pub proof fn greediest_is_one(row: Seq<u32>, a: u32, b: u32)
    requires
        greediest(row, a),
        greediest(row, b),
    ensures
        a == b,
{
    if leads(row, a as int) && leads(row, b as int) {
        if a < b {
            assert(rank(row[a as int]) < rank(row[b as int]));
        }
        if b < a {
            assert(rank(row[b as int]) < rank(row[a as int]));
        }
    }
}

/// Tells whether bits are no number.
pub fn test_nan(bits: u32) -> (r: bool)
    ensures
        r == is_nan(bits),
{
    bits % 0x8000_0000 > 0x7f80_0000
}

/// The place of a float among all floats.
pub fn rank_of(bits: u32) -> (r: i64)
    ensures
        r == rank(bits),
        -0x8000_0000 < r < 0x8000_0000,
{
    if bits < 0x8000_0000 {
        bits as i64
    } else {
        0x8000_0000i64 - (bits as i64)
    }
}

/// Tells whether a float is at most another.
pub fn test_at_most(a: u32, b: u32) -> (r: bool)
    ensures
        r == at_most(a, b),
{
    !test_nan(a) && !test_nan(b) && rank_of(a) <= rank_of(b)
}

/// The first of the largest scores.
pub fn greedy_sample(logits: &[u32]) -> (t: u32)
    requires
        logits@.len() <= u32::MAX,
    ensures
        greediest(logits@, t),
        logits@.len() > 0 ==> t < logits@.len(),
{
    let n: usize = logits.len();
    let mut found: bool = false;
    let mut best: usize = 0;
    let mut i: usize = 0;
    while i < n
        invariant
            n == logits@.len(),
            i <= n,
            best <= i,
            found ==> best < i && leads(logits@.take(i as int), best as int),
            !found ==> best == 0 && forall|j: int| 0 <= j < i ==> is_nan(#[trigger] logits@[j]),
        decreases n - i,
    {
        let v: u32 = logits[i];
        let ghost seen = logits@.take(i as int);
        let ghost more = logits@.take(i + 1);
        assert(more =~= seen.push(v));
        if !test_nan(v) && (!found || rank_of(v) > rank_of(logits[best])) {
            proof {
                assert forall|j: int| 0 <= j < i && !is_nan(#[trigger] more[j]) implies rank(more[j]) < rank(v) by {
                    assert(more[j] == seen[j]);
                    if found {
                        assert(rank(seen[j]) <= rank(seen[best as int]));
                    } else {
                        assert(is_nan(logits@[j]));
                    }
                }
            }
            best = i;
            found = true;
        } else if found {
            proof {
                assert(seen[best as int] == more[best as int]);
                assert forall|j: int| 0 <= j < more.len() && !is_nan(#[trigger] more[j]) implies rank(more[j]) <= rank(more[best as int]) by {
                    if j < i {
                        assert(more[j] == seen[j]);
                    }
                }
                assert forall|j: int| 0 <= j < best && !is_nan(#[trigger] more[j]) implies rank(more[j]) < rank(more[best as int]) by {
                    assert(more[j] == seen[j]);
                }
            }
        }
        i = i + 1;
    }
    assert(logits@.take(n as int) =~= logits@);
    best as u32
}

/// How the next token is picked. Temperatures and shares are the bits of floats.
#[derive(Debug, Clone, Copy)]
pub enum SamplingStrategy {
    Greedy,
    Temperature { temperature: u32 },
    TopK { k: usize, temperature: u32 },
    TopP { p: u32, temperature: u32 },
}

/// The sum of the first `n` shares, added one by one.
pub open spec fn running_sum<F: Fn(Op, &[u32], &[u32], &[u32]) -> Vec<u32>>(unit: F, shares: Seq<u32>, n: int) -> u32
    decreases n,
{
    if n <= 0 {
        0
    } else {
        unit::value(unit, Op::Plus, seq![running_sum(unit, shares, n - 1)], seq![shares[n - 1]], Seq::empty())[0]
    }
}

/// The place that a share of all, drawn at random, falls on: the first up to which the sum
/// reaches it, or the last.
pub open spec fn falls_on<F: Fn(Op, &[u32], &[u32], &[u32]) -> Vec<u32>>(unit: F, shares: Seq<u32>, drawn: u32, i: int) -> bool {
    &&& 0 <= i < shares.len()
    &&& forall|j: int| 0 <= j < i ==> !at_most(drawn, #[trigger] running_sum(unit, shares, j + 1))
    &&& i == shares.len() - 1 || at_most(drawn, running_sum(unit, shares, i + 1))
}

/// How many of the shares it takes for their sum to reach `p`, at most all.
pub open spec fn enough<F: Fn(Op, &[u32], &[u32], &[u32]) -> Vec<u32>>(unit: F, shares: Seq<u32>, p: u32, n: int) -> bool {
    &&& 0 <= n <= shares.len()
    &&& forall|j: int| 0 < j < n ==> !at_most(p, #[trigger] running_sum(unit, shares, j))
    &&& (n > 0 && at_most(p, running_sum(unit, shares, n))) || (n == shares.len() && forall|j: int|
        0 < j <= n ==> !at_most(p, #[trigger] running_sum(unit, shares, j)))
}

/// Finds the place that a drawn share falls on.
fn sample_from_probs<F: Fn(Op, &[u32], &[u32], &[u32]) -> Vec<u32>>(shares: &[u32], drawn: u32, unit: &F) -> (i: usize)
    requires
        unit::lawful(*unit),
        shares@.len() > 0,
    ensures
        falls_on(*unit, shares@, drawn, i as int),
{
    let none: Vec<u32> = Vec::new();
    let mut sum: u32 = 0;
    let mut i: usize = 0;
    let n: usize = shares.len();
    while i < n
        invariant
            unit::lawful(*unit),
            n == shares@.len(),
            n > 0,
            none@ == Seq::<u32>::empty(),
            i <= n,
            sum == running_sum(*unit, shares@, i as int),
            forall|j: int| 0 <= j < i ==> !at_most(drawn, #[trigger] running_sum(*unit, shares@, j + 1)),
        decreases n - i,
    {
        let a: Vec<u32> = vec![sum];
        let b: Vec<u32> = vec![shares[i]];
        assert(a@ =~= seq![sum]);
        assert(b@ =~= seq![shares@[i as int]]);
        let c: Vec<u32> = unit::run(unit, Op::Plus, a.as_slice(), b.as_slice(), none.as_slice());
        sum = c[0];
        assert(sum == running_sum(*unit, shares@, i + 1));
        if test_at_most(drawn, sum) {
            return i;
        }
        i = i + 1;
    }
    n - 1
}

/// Finds how many shares are enough.
fn cutoff<F: Fn(Op, &[u32], &[u32], &[u32]) -> Vec<u32>>(shares: &[u32], p: u32, unit: &F) -> (r: usize)
    requires
        unit::lawful(*unit),
    ensures
        enough(*unit, shares@, p, r as int),
        shares@.len() > 0 ==> r > 0,
{
    let none: Vec<u32> = Vec::new();
    let mut sum: u32 = 0;
    let mut i: usize = 0;
    let n: usize = shares.len();
    while i < n
        invariant
            unit::lawful(*unit),
            n == shares@.len(),
            none@ == Seq::<u32>::empty(),
            i <= n,
            sum == running_sum(*unit, shares@, i as int),
            forall|j: int| 0 < j <= i ==> !at_most(p, #[trigger] running_sum(*unit, shares@, j)),
        decreases n - i,
    {
        let a: Vec<u32> = vec![sum];
        let b: Vec<u32> = vec![shares[i]];
        assert(a@ =~= seq![sum]);
        assert(b@ =~= seq![shares@[i as int]]);
        let c: Vec<u32> = unit::run(unit, Op::Plus, a.as_slice(), b.as_slice(), none.as_slice());
        sum = c[0];
        assert(sum == running_sum(*unit, shares@, i + 1));
        i = i + 1;
        if test_at_most(p, sum) {
            return i;
        }
    }
    n
}

/// A pair stands at or before another in ascending order, the first parts decide before the
/// second.
pub open spec fn in_order(a: (i64, usize), b: (i64, usize)) -> bool {
    a.0 < b.0 || (a.0 == b.0 && a.1 <= b.1)
}

/// Sorts with `slice::sort_unstable` of the standard library: the same pairs as before, in
/// ascending order, in which tuples compare part by part.
#[verifier::external_body]
fn sort_pairs(pairs: &mut Vec<(i64, usize)>)
    ensures
        final(pairs)@.to_multiset() == old(pairs)@.to_multiset(),
        final(pairs)@.len() == old(pairs)@.len(),
        forall|i: int, j: int| 0 <= i < j < final(pairs)@.len() ==> in_order(#[trigger] final(pairs)@[i], #[trigger] final(pairs)@[j]),
{
    pairs.sort_unstable();
}

/// The places of a row from the largest score down; of equal scores the first comes first.
pub open spec fn falling(row: Seq<u32>, order: Seq<usize>) -> bool {
    &&& order.len() == row.len()
    &&& forall|a: int| 0 <= a < order.len() ==> (#[trigger] order[a]) < row.len()
    &&& forall|a: int, b: int| 0 <= a < b < order.len() ==> {
        let x = rank(row[(#[trigger] order[a]) as int]);
        let y = rank(row[(#[trigger] order[b]) as int]);
        x > y || (x == y && order[a] < order[b])
    }
}

/// Orders the places of a row from the largest score down.
fn falling_order(row: &[u32]) -> (order: Vec<usize>)
    ensures
        falling(row@, order@),
{
    let n: usize = row.len();
    let mut pairs: Vec<(i64, usize)> = Vec::new();
    let mut i: usize = 0;
    while i < n
        invariant
            n == row@.len(),
            i <= n,
            pairs@.len() == i,
            forall|j: int| 0 <= j < i ==> #[trigger] pairs@[j] == ((-rank(row@[j])) as i64, j as usize),
        decreases n - i,
    {
        pairs.push((-rank_of(row[i]), i));
        i = i + 1;
    }
    let ghost before = pairs@;
    sort_pairs(&mut pairs);
    proof {
        assert(before.no_duplicates());
        before.lemma_multiset_has_no_duplicates();
        pairs@.lemma_multiset_has_no_duplicates_conv();
        assert forall|a: int| 0 <= a < n implies {
            let p = #[trigger] pairs@[a];
            p.1 < n && p.0 == -rank(row@[p.1 as int])
        } by {
            pairs@.to_multiset_ensures();
            before.to_multiset_ensures();
            let p = pairs@[a];
            assert(pairs@.contains(p));
            assert(pairs@.to_multiset().count(p) > 0);
            assert(before.contains(p));
            let j = choose|j: int| 0 <= j < before.len() && before[j] == p;
            assert(before[j] == ((-rank(row@[j])) as i64, j as usize));
            let bits = row@[j];
            assert(-0x8000_0000 <= rank(bits) <= 0x8000_0000);
        }
    }
    let mut order: Vec<usize> = Vec::new();
    let mut k: usize = 0;
    while k < n
        invariant
            n == row@.len(),
            k <= n,
            pairs@.len() == n,
            order@.len() == k,
            forall|j: int| 0 <= j < k ==> #[trigger] order@[j] == pairs@[j].1,
        decreases n - k,
    {
        order.push(pairs[k].1);
        k = k + 1;
    }
    proof {
        assert forall|a: int, b: int| 0 <= a < b < order@.len() implies {
            let x = rank(row@[(#[trigger] order@[a]) as int]);
            let y = rank(row@[(#[trigger] order@[b]) as int]);
            x > y || (x == y && order@[a] < order@[b])
        } by {
            let p = pairs@[a];
            let q = pairs@[b];
            assert(in_order(p, q));
            assert(p != q);
        }
    }
    order
}

/// The scores at the places of an order.
pub open spec fn at_places(row: Seq<u32>, order: Seq<usize>) -> Seq<u32> {
    Seq::new(order.len(), |i: int| row[order[i] as int])
}

/// Reads the scores at the first places of an order.
fn take_places(row: &[u32], order: &[usize], k: usize) -> (r: Vec<u32>)
    requires
        k <= order@.len(),
        forall|a: int| 0 <= a < order@.len() ==> (#[trigger] order@[a]) < row@.len(),
    ensures
        r@ == at_places(row@, order@.take(k as int)),
{
    let mut r: Vec<u32> = Vec::new();
    let mut i: usize = 0;
    while i < k
        invariant
            k <= order@.len(),
            forall|a: int| 0 <= a < order@.len() ==> (#[trigger] order@[a]) < row@.len(),
            i <= k,
            r@ == at_places(row@, order@.take(i as int)),
        decreases k - i,
    {
        r.push(row[order[i]]);
        i = i + 1;
        assert(r@ =~= at_places(row@, order@.take(i as int)));
    }
    r
}

/// What a temperature gives: the greedy choice where it is not above zero, else the place that
/// the drawn share falls on.
pub open spec fn warm<F: Fn(Op, &[u32], &[u32], &[u32]) -> Vec<u32>>(unit: F, row: Seq<u32>, temperature: u32, drawn: u32, token: u32) -> bool {
    if at_most(temperature, 0) {
        greediest(row, token)
    } else {
        falls_on(unit, unit::value(unit, Op::Softmax { temperature }, row, Seq::empty(), Seq::empty()), drawn, token as int)
    }
}

/// What the `k` largest scores give.
pub open spec fn among_top<F: Fn(Op, &[u32], &[u32], &[u32]) -> Vec<u32>>(
    unit: F,
    row: Seq<u32>,
    k: int,
    temperature: u32,
    drawn: u32,
    token: u32,
    order: Seq<usize>,
    i: int,
) -> bool {
    let top = order.take(k);
    let shares = unit::value(unit, Op::Softmax { temperature }, at_places(row, top), Seq::empty(), Seq::empty());
    &&& falling(row, order)
    &&& falls_on(unit, shares, drawn, i)
    &&& token == top[i]
}

/// What the largest scores that together reach a share of `p` give.
pub open spec fn among_likely<F: Fn(Op, &[u32], &[u32], &[u32]) -> Vec<u32>>(
    unit: F,
    row: Seq<u32>,
    p: u32,
    temperature: u32,
    drawn: u32,
    token: u32,
    order: Seq<usize>,
    n: int,
    i: int,
) -> bool {
    let all = unit::value(unit, Op::Softmax { temperature }, at_places(row, order), Seq::empty(), Seq::empty());
    let shares = unit::value(unit, Op::Share, all.take(n), Seq::empty(), Seq::empty());
    &&& falling(row, order)
    &&& enough(unit, all, p, n)
    &&& falls_on(unit, shares, drawn, i)
    &&& token == order[i]
}

/// The least of two lengths.
pub open spec fn least(a: int, b: int) -> int {
    if a < b {
        a
    } else {
        b
    }
}

/// Picks tokens by a strategy.
#[derive(Debug, Clone, Copy)]
pub struct Sampler {
    pub strategy: SamplingStrategy,
}

impl Sampler {
    /// A sampler with this strategy.
    pub fn new(strategy: SamplingStrategy) -> (r: Sampler)
        ensures
            r.strategy == strategy,
    {
        Sampler { strategy }
    }

    /// A sampler that takes the largest score.
    pub fn greedy() -> (r: Sampler)
        ensures
            r.strategy == SamplingStrategy::Greedy,
    {
        Sampler { strategy: SamplingStrategy::Greedy }
    }

    /// A sampler that draws at a temperature.
    pub fn temperature(temp: u32) -> (r: Sampler)
        ensures
            r.strategy == (SamplingStrategy::Temperature { temperature: temp }),
    {
        Sampler { strategy: SamplingStrategy::Temperature { temperature: temp } }
    }

    /// A sampler that draws among the `k` largest scores.
    pub fn top_k(k: usize, temp: u32) -> (r: Sampler)
        ensures
            r.strategy == (SamplingStrategy::TopK { k, temperature: temp }),
    {
        Sampler { strategy: SamplingStrategy::TopK { k, temperature: temp } }
    }

    /// What the strategy gives for a row of scores and a share drawn at random.
    pub open spec fn gives<F: Fn(Op, &[u32], &[u32], &[u32]) -> Vec<u32>>(self, unit: F, row: Seq<u32>, drawn: u32, token: u32) -> bool {
        match self.strategy {
            SamplingStrategy::Greedy => greediest(row, token),
            SamplingStrategy::Temperature { temperature } => warm(unit, row, temperature, drawn, token),
            SamplingStrategy::TopK { k, temperature } => {
                if k == 0 || row.len() == 0 {
                    token == 0
                } else {
                    exists|order: Seq<usize>, i: int| #[trigger]
                        among_top(unit, row, least(k as int, row.len() as int), temperature, drawn, token, order, i)
                }
            },
            SamplingStrategy::TopP { p, temperature } => {
                exists|order: Seq<usize>, n: int, i: int| #[trigger] among_likely(unit, row, p, temperature, drawn, token, order, n, i)
            },
        }
    }

    /// Picks a token from a row of scores; `drawn` is the share that chance has drawn.
    pub fn sample<F: Fn(Op, &[u32], &[u32], &[u32]) -> Vec<u32>>(&self, logits: &[u32], drawn: u32, unit: &F) -> (t: u32)
        requires
            unit::lawful(*unit),
            logits@.len() <= u32::MAX,
            logits@.len() > 0 || self.strategy is Greedy || self.strategy is TopK,
        ensures
            self.gives(*unit, logits@, drawn, t),
            logits@.len() > 0 ==> t < logits@.len(),
    {
        let none: Vec<u32> = Vec::new();
        let n: usize = logits.len();
        match self.strategy {
            SamplingStrategy::Greedy => greedy_sample(logits),
            SamplingStrategy::Temperature { temperature } => {
                if test_at_most(temperature, 0) {
                    greedy_sample(logits)
                } else {
                    let shares: Vec<u32> = unit::run(unit, Op::Softmax { temperature }, logits, none.as_slice(), none.as_slice());
                    let t: u32 = sample_from_probs(shares.as_slice(), drawn, unit) as u32;
                    assert(warm(*unit, logits@, temperature, drawn, t));
                    t
                }
            },
            SamplingStrategy::TopK { k, temperature } => {
                let count: usize = if k < n { k } else { n };
                if count == 0 {
                    return 0;
                }
                let order: Vec<usize> = falling_order(logits);
                let values: Vec<u32> = take_places(logits, order.as_slice(), count);
                let shares: Vec<u32> = unit::run(unit, Op::Softmax { temperature }, values.as_slice(), none.as_slice(), none.as_slice());
                let i: usize = sample_from_probs(shares.as_slice(), drawn, unit);
                let t: u32 = order[i] as u32;
                assert(among_top(*unit, logits@, least(k as int, n as int), temperature, drawn, t, order@, i as int));
                t
            },
            SamplingStrategy::TopP { p, temperature } => {
                let order: Vec<usize> = falling_order(logits);
                let values: Vec<u32> = take_places(logits, order.as_slice(), n);
                assert(order@.take(n as int) =~= order@);
                let all: Vec<u32> = unit::run(unit, Op::Softmax { temperature }, values.as_slice(), none.as_slice(), none.as_slice());
                let count: usize = cutoff(all.as_slice(), p, unit);
                let mut part: Vec<u32> = Vec::new();
                let mut j: usize = 0;
                while j < count
                    invariant
                        count <= all@.len(),
                        j <= count,
                        part@ == all@.take(j as int),
                    decreases count - j,
                {
                    part.push(all[j]);
                    j = j + 1;
                    assert(part@ =~= all@.take(j as int));
                }
                let shares: Vec<u32> = unit::run(unit, Op::Share, part.as_slice(), none.as_slice(), none.as_slice());
                let i: usize = sample_from_probs(shares.as_slice(), drawn, unit);
                let t: u32 = order[i] as u32;
                assert(among_likely(*unit, logits@, p, temperature, drawn, t, order@, count as int, i as int));
                t
            },
        }
    }
}

} // verus!
