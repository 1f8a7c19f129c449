//! Joining neighbouring parts of a word in the order of a list of merges.
use super::pretokens;
use crate::text;
use vstd::hash_map::StringHashMap;
use vstd::prelude::*;

verus! {

/// The place of the first merge of two parts in a list.
pub open spec fn merge_rank(merges: Seq<(Seq<char>, Seq<char>)>, left: Seq<char>, right: Seq<char>) -> Option<nat>
    decreases merges.len(),
{
    if merges.len() == 0 {
        None
    } else {
        match merge_rank(merges.drop_last(), left, right) {
            Some(i) => Some(i),
            None => if merges.last() == (left, right) {
                Some((merges.len() - 1) as nat)
            } else {
                None
            },
        }
    }
}

/// A rank is a place in the list where just these parts stand, and they stand at no earlier one.
pub proof fn merge_rank_is_first(merges: Seq<(Seq<char>, Seq<char>)>, left: Seq<char>, right: Seq<char>)
    ensures
        match merge_rank(merges, left, right) {
            Some(i) => i < merges.len() && merges[i as int] == (left, right) && forall|j: int|
                0 <= j < i ==> #[trigger] merges[j] != (left, right),
            None => forall|j: int| 0 <= j < merges.len() ==> #[trigger] merges[j] != (left, right),
        },
    decreases merges.len(),
{
    if merges.len() > 0 {
        let head = merges.drop_last();
        merge_rank_is_first(head, left, right);
        assert forall|j: int| 0 <= j < head.len() implies #[trigger] merges[j] == head[j] by {}
    }
}

/// Pairs of texts.
pub open spec fn pair_texts(v: Seq<(String, String)>) -> Seq<(Seq<char>, Seq<char>)> {
    Seq::new(v.len(), |i: int| (v[i].0@, v[i].1@))
}

/// Two neighbours can be merged.
pub open spec fn mergeable(merges: Seq<(Seq<char>, Seq<char>)>, parts: Seq<Seq<char>>, p: int) -> bool {
    0 <= p < parts.len() - 1 && merge_rank(merges, parts[p], parts[p + 1]) is Some
}

/// The rank of the merge of two neighbours.
pub open spec fn rank_at(merges: Seq<(Seq<char>, Seq<char>)>, parts: Seq<Seq<char>>, p: int) -> nat {
    merge_rank(merges, parts[p], parts[p + 1]).unwrap()
}

/// The merge that comes first: no other has a smaller rank, and none before it has the same.
pub open spec fn foremost(merges: Seq<(Seq<char>, Seq<char>)>, parts: Seq<Seq<char>>, p: int) -> bool {
    &&& mergeable(merges, parts, p)
    &&& forall|q: int|
        #[trigger] mergeable(merges, parts, q) ==> rank_at(merges, parts, p) <= rank_at(merges, parts, q) && (q < p ==> rank_at(
            merges,
            parts,
            p,
        ) < rank_at(merges, parts, q))
}

/// The parts with two neighbours joined.
pub open spec fn joined_at(parts: Seq<Seq<char>>, p: int) -> Seq<Seq<char>> {
    parts.take(p).push(parts[p] + parts[p + 1]) + parts.skip(p + 2)
}

/// The parts after all merges: the foremost one, again and again, until there is none.
pub open spec fn merged(merges: Seq<(Seq<char>, Seq<char>)>, parts: Seq<Seq<char>>) -> Seq<Seq<char>>
    decreases parts.len(),
{
    if exists|p: int| #[trigger] foremost(merges, parts, p) {
        let p = choose|p: int| #[trigger] foremost(merges, parts, p);
        if 0 <= p < parts.len() - 1 {
            merged(merges, joined_at(parts, p))
        } else {
            parts
        }
    } else {
        parts
    }
}

/// Only one merge comes first.
pub proof fn foremost_is_one(merges: Seq<(Seq<char>, Seq<char>)>, parts: Seq<Seq<char>>, p: int, q: int)
    requires
        foremost(merges, parts, p),
        foremost(merges, parts, q),
    ensures
        p == q,
{
    assert(mergeable(merges, parts, p));
    assert(mergeable(merges, parts, q));
}

/// Joining neighbours keeps the text.
pub proof fn joined_keeps(parts: Seq<Seq<char>>, p: int)
    requires
        0 <= p < parts.len() - 1,
    ensures
        pretokens::flat(joined_at(parts, p)) == pretokens::flat(parts),
{
    let head = parts.take(p);
    let tail = parts.skip(p + 2);
    let pair = seq![parts[p], parts[p + 1]];
    assert(parts =~= (head + pair) + tail);
    pretokens::flat_join(head + pair, tail);
    pretokens::flat_join(head, pair);
    pretokens::flat_push(head, parts[p] + parts[p + 1]);
    pretokens::flat_join(head.push(parts[p] + parts[p + 1]), tail);
    assert(pair.drop_last() =~= seq![parts[p]]);
    assert(seq![parts[p]].drop_last() =~= Seq::<Seq<char>>::empty());
    assert(pretokens::flat(seq![parts[p]]) =~= parts[p]) by {
        assert(pretokens::flat(Seq::<Seq<char>>::empty()) =~= Seq::<char>::empty());
    }
    assert(pretokens::flat(pair) =~= parts[p] + parts[p + 1]);
}

/// Merging keeps the text.
pub proof fn merged_keeps_text(merges: Seq<(Seq<char>, Seq<char>)>, parts: Seq<Seq<char>>)
    ensures
        pretokens::flat(merged(merges, parts)) == pretokens::flat(parts),
    decreases parts.len(),
{
    if exists|p: int| #[trigger] foremost(merges, parts, p) {
        let p = choose|p: int| #[trigger] foremost(merges, parts, p);
        assert(mergeable(merges, parts, p));
        joined_keeps(parts, p);
        merged_keeps_text(merges, joined_at(parts, p));
    }
}

/// After all merges, no two neighbours can be merged.
pub proof fn merged_is_final(merges: Seq<(Seq<char>, Seq<char>)>, parts: Seq<Seq<char>>, q: int)
    ensures
        !foremost(merges, merged(merges, parts), q),
    decreases parts.len(),
{
    if exists|p: int| #[trigger] foremost(merges, parts, p) {
        let p = choose|p: int| #[trigger] foremost(merges, parts, p);
        assert(mergeable(merges, parts, p));
        merged_is_final(merges, joined_at(parts, p), q);
    }
}

/// Place `k` of a list of merges has the pair that stands at `p` of the parts; no neighbours form a
/// pair that stands at an earlier place, and none before `p` form this pair.
pub open spec fn earliest(merges: Seq<(Seq<char>, Seq<char>)>, parts: Seq<Seq<char>>, k: int, p: int) -> bool {
    &&& 0 <= k < merges.len()
    &&& 0 <= p
    &&& p + 1 < parts.len()
    &&& merges[k] == (parts[p], parts[p + 1])
    &&& forall|j: int, q: int|
        0 <= j < merges.len() && 0 <= q && q + 1 < parts.len() && #[trigger] merges[j] == (#[trigger] parts[q], parts[q + 1]) ==> k < j || (k == j
            && p <= q)
}

/// Where the pairs of neighbours stand in the list is what their ranks say.
proof fn ranks_are_places(merges: Seq<(Seq<char>, Seq<char>)>, parts: Seq<Seq<char>>, k: int, p: int)
    requires
        earliest(merges, parts, k, p),
    ensures
        foremost(merges, parts, p),
{
    merge_rank_is_first(merges, parts[p], parts[p + 1]);
    let rank = merge_rank(merges, parts[p], parts[p + 1]);
    assert(rank is Some);
    assert(rank.unwrap() == k) by {
        if rank.unwrap() < k {
            assert(merges[rank.unwrap() as int] == merges[k]);
        }
    }
    assert forall|q: int| #[trigger] mergeable(merges, parts, q) implies rank_at(merges, parts, p) <= rank_at(merges, parts, q) && (q < p
        ==> rank_at(merges, parts, p) < rank_at(merges, parts, q)) by {
        merge_rank_is_first(merges, parts[q], parts[q + 1]);
        let j = rank_at(merges, parts, q) as int;
        assert(merges[j] == (parts[q], parts[q + 1]));
        if merges[j] == merges[k] && j < k {
            assert(false);
        }
    }
}

/// Each step joins the first neighbours whose pair stands earliest in the list, whatever the
/// parts are made of: merging goes on from the parts with those two joined.
pub proof fn earliest_pair_is_joined(merges: Seq<(Seq<char>, Seq<char>)>, parts: Seq<Seq<char>>, k: int, p: int)
    requires
        earliest(merges, parts, k, p),
    ensures
        merged(merges, parts) == merged(merges, parts.take(p) + seq![parts[p] + parts[p + 1]] + parts.skip(p + 2)),
{
    ranks_are_places(merges, parts, k, p);
    let q = choose|q: int| #[trigger] foremost(merges, parts, q);
    foremost_is_one(merges, parts, p, q);
    assert(parts.take(p) + seq![parts[p] + parts[p + 1]] + parts.skip(p + 2) =~= joined_at(parts, p));
}

/// Where neighbours can be merged, some merge comes first.
proof fn some_is_foremost(merges: Seq<(Seq<char>, Seq<char>)>, parts: Seq<Seq<char>>, n: int, p: int) -> (f: int)
    requires
        mergeable(merges, parts, p),
        p < n <= parts.len(),
    ensures
        mergeable(merges, parts, f),
        f < n,
        forall|q: int|
            #[trigger] mergeable(merges, parts, q) && q < n ==> rank_at(merges, parts, f) <= rank_at(merges, parts, q) && (q < f ==> rank_at(
                merges,
                parts,
                f,
            ) < rank_at(merges, parts, q)),
    decreases n,
{
    if exists|q: int| q < n - 1 && #[trigger] mergeable(merges, parts, q) {
        let q = choose|q: int| q < n - 1 && #[trigger] mergeable(merges, parts, q);
        let f = some_is_foremost(merges, parts, n - 1, q);
        if mergeable(merges, parts, n - 1) && rank_at(merges, parts, n - 1) < rank_at(merges, parts, f) {
            n - 1
        } else {
            f
        }
    } else {
        assert(p == n - 1);
        p
    }
}

/// Merging goes on until nothing is left to merge: no two neighbours of the result form a pair
/// that stands in the list. Where no two neighbours of the parts do, they stay as they are.
pub proof fn nothing_is_left_to_merge(merges: Seq<(Seq<char>, Seq<char>)>, parts: Seq<Seq<char>>)
    ensures
        ({
            let done = merged(merges, parts);
            forall|j: int, i: int|
                0 <= j < merges.len() && 0 <= i && i + 1 < done.len() ==> #[trigger] merges[j] != (#[trigger] done[i], done[i + 1])
        }),
        (forall|j: int, i: int|
            0 <= j < merges.len() && 0 <= i && i + 1 < parts.len() ==> #[trigger] merges[j] != (#[trigger] parts[i], parts[i + 1]))
            ==> merged(merges, parts) == parts,
    decreases parts.len(),
{
    let done = merged(merges, parts);
    assert forall|j: int, i: int| 0 <= j < merges.len() && 0 <= i && i + 1 < done.len() implies #[trigger] merges[j] != (
        #[trigger] done[i],
        done[i + 1],
    ) by {
        merge_rank_is_first(merges, done[i], done[i + 1]);
        if merges[j] == (done[i], done[i + 1]) {
            assert(mergeable(merges, done, i));
            let f = some_is_foremost(merges, done, done.len() as int, i);
            assert(foremost(merges, done, f));
            merged_is_final(merges, parts, f);
        }
    }
    if exists|p: int| #[trigger] foremost(merges, parts, p) {
        let p = choose|p: int| #[trigger] foremost(merges, parts, p);
        assert(mergeable(merges, parts, p));
        merge_rank_is_first(merges, parts[p], parts[p + 1]);
        let j = rank_at(merges, parts, p) as int;
        assert(merges[j] == (parts[p], parts[p + 1]));
    }
}

/// A list of merges that can be looked up by both parts: for every left part, the right parts that
/// it merges with.
pub struct MergeTable {
    merges: Vec<(String, String)>,
    lefts: StringHashMap<usize>,
    rights: Vec<StringHashMap<usize>>,
}

impl MergeTable {
    /// What the list says.
    pub closed spec fn list(self) -> Seq<(Seq<char>, Seq<char>)> {
        pair_texts(self.merges@)
    }

    /// The rank that is looked up.
    closed spec fn rank(self, left: Seq<char>, right: Seq<char>) -> Option<nat> {
        if self.lefts@.contains_key(left) && self.rights@[self.lefts@[left] as int]@.contains_key(right) {
            Some(self.rights@[self.lefts@[left] as int]@[right] as nat)
        } else {
            None
        }
    }

    /// Every left part has right parts of its own.
    closed spec fn sound(self) -> bool {
        &&& forall|l: Seq<char>| #[trigger] self.lefts@.contains_key(l) ==> self.lefts@[l] < self.rights@.len()
        &&& forall|l: Seq<char>, m: Seq<char>|
            #[trigger] self.lefts@.contains_key(l) && #[trigger] self.lefts@.contains_key(m) && l != m ==> self.lefts@[l]
                != self.lefts@[m]
    }

    /// The table says of all parts what the list says.
    pub closed spec fn wf(self) -> bool {
        &&& self.sound()
        &&& forall|l: Seq<char>, r: Seq<char>| #[trigger] self.rank(l, r) == merge_rank(self.list(), l, r)
    }

    /// Finds the rank of a merge.
    fn find(&self, left: &str, right: &str) -> (r: Option<usize>)
        requires
            self.sound(),
        ensures
            match r {
                Some(i) => self.rank(left@, right@) == Some(i as nat),
                None => self.rank(left@, right@) is None,
            },
    {
        match self.lefts.get(left) {
            Some(k) => match self.rights[*k].get(right) {
                Some(i) => Some(*i),
                None => None,
            },
            None => None,
        }
    }

    /// Enters a merge that is not there.
    fn enter(&mut self, left: &str, right: &str, i: usize)
        requires
            old(self).sound(),
        ensures
            final(self).sound(),
            final(self).merges == old(self).merges,
            forall|l: Seq<char>, r: Seq<char>| #[trigger]
                final(self).rank(l, r) == (if l == left@ && r == right@ {
                    Some(i as nat)
                } else {
                    old(self).rank(l, r)
                }),
    {
        let k: usize = match self.lefts.get(left) {
            Some(k) => *k,
            None => {
                let k: usize = self.rights.len();
                self.lefts.insert(left.to_owned(), k);
                self.rights.push(StringHashMap::new());
                k
            },
        };
        let ghost lefts = self.lefts@;
        let ghost rights = self.rights@;
        let ghost middle = *self;
        self.rights[k].insert(right.to_owned(), i);
        proof {
            assert(lefts.contains_key(left@) && lefts[left@] == k);
            assert forall|l: Seq<char>, r: Seq<char>| #[trigger]
                self.rank(l, r) == (if l == left@ && r == right@ {
                    Some(i as nat)
                } else {
                    old(self).rank(l, r)
                }) by {
                if l != left@ && lefts.contains_key(l) {
                    assert(lefts[l] != k);
                    assert(old(self).lefts@.contains_key(l));
                    assert(self.rights@[lefts[l] as int] == old(self).rights@[lefts[l] as int]);
                }
            }
        }
    }

    /// Makes the table of a list.
    pub fn new(merges: Vec<(String, String)>) -> (r: MergeTable)
        ensures
            r.wf(),
            r.list() == pair_texts(merges@),
    {
        let n: usize = merges.len();
        let mut t: MergeTable = MergeTable { merges, lefts: StringHashMap::new(), rights: Vec::new() };
        let ghost list = pair_texts(merges@);
        let mut i: usize = 0;
        assert forall|l: Seq<char>, r: Seq<char>| #[trigger] t.rank(l, r) == merge_rank(list.take(0), l, r) by {}
        while i < n
            invariant
                n == merges@.len(),
                list == pair_texts(merges@),
                t.merges@ == merges@,
                t.sound(),
                i <= n,
                forall|l: Seq<char>, r: Seq<char>| #[trigger] t.rank(l, r) == merge_rank(list.take(i as int), l, r),
            decreases n - i,
        {
            let left: String = t.merges[i].0.clone();
            let right: String = t.merges[i].1.clone();
            let ghost before = t;
            assert(list.take(i + 1).drop_last() =~= list.take(i as int));
            assert(list.take(i + 1).last() == (left@, right@));
            let known: Option<usize> = t.find(&left, &right);
            if known.is_none() {
                t.enter(&left, &right, i);
            }
            assert forall|l: Seq<char>, r: Seq<char>| #[trigger] t.rank(l, r) == merge_rank(list.take(i + 1), l, r) by {
                assert(before.rank(l, r) == merge_rank(list.take(i as int), l, r));
            }
            i = i + 1;
        }
        assert(list.take(n as int) =~= list);
        t
    }

    /// Finds the foremost merge.
    fn pick(&self, parts: &Vec<String>) -> (r: Option<usize>)
        requires
            self.wf(),
        ensures
            match r {
                Some(p) => foremost(self.list(), text::texts(parts@), p as int),
                None => forall|p: int| !#[trigger] mergeable(self.list(), text::texts(parts@), p),
            },
    {
        let ghost list = self.list();
        let ghost model = text::texts(parts@);
        let n: usize = parts.len();
        if n < 2 {
            return None;
        }
        let mut best: Option<(usize, usize)> = None;
        let mut i: usize = 0;
        while i < n - 1
            invariant
                self.wf(),
                list == self.list(),
                model == text::texts(parts@),
                n == parts@.len(),
                2 <= n,
                i <= n - 1,
                match best {
                    Some((p, rank)) => p < i && mergeable(list, model, p as int) && rank == rank_at(list, model, p as int) && forall|q: int|
                        0 <= q < i && #[trigger] mergeable(list, model, q) ==> rank <= rank_at(list, model, q) && (q < p ==> rank
                            < rank_at(list, model, q)),
                    None => forall|q: int| 0 <= q < i ==> !#[trigger] mergeable(list, model, q),
                },
            decreases n - 1 - i,
        {
            let found: Option<usize> = self.find(&parts[i], &parts[i + 1]);
            assert(self.rank(model[i as int], model[i + 1]) == merge_rank(list, model[i as int], model[i + 1]));
            if let Some(rank) = found {
                assert(mergeable(list, model, i as int));
                let better: bool = match best {
                    Some((_, least)) => rank < least,
                    None => true,
                };
                if better {
                    best = Some((i, rank));
                }
            }
            i = i + 1;
        }
        match best {
            Some((p, _)) => Some(p),
            None => None,
        }
    }

    /// Merges the parts of a word.
    pub fn apply(&self, parts: Vec<String>) -> (r: Vec<String>)
        requires
            self.wf(),
        ensures
            text::texts(r@) == merged(self.list(), text::texts(parts@)),
    {
        let mut list: Vec<String> = parts;
        loop
            invariant
                self.wf(),
                merged(self.list(), text::texts(parts@)) == merged(self.list(), text::texts(list@)),
            ensures
                text::texts(list@) == merged(self.list(), text::texts(parts@)),
            decreases list@.len(),
        {
            let ghost model = text::texts(list@);
            match self.pick(&list) {
                None => {
                    proof {
                        assert forall|p: int| !#[trigger] foremost(self.list(), model, p) by {
                            if foremost(self.list(), model, p) {
                                assert(mergeable(self.list(), model, p));
                            }
                        }
                    }
                    break;
                },
                Some(p) => {
                    assert(mergeable(self.list(), model, p as int));
                    assert(list.len() == list@.len());
                    let whole: String = text::joined(&list[p], &list[p + 1]);
                    let _gone: String = list.remove(p + 1);
                    list.set(p, whole);
                    proof {
                        assert(text::texts(list@) =~= joined_at(model, p as int));
                        let q = choose|q: int| #[trigger] foremost(self.list(), model, q);
                        foremost_is_one(self.list(), model, p as int, q);
                    }
                },
            }
        }
        list
    }
}

} // verus!
