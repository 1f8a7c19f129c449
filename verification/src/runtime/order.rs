//! What a continuous batch gives as a whole: each request is answered once, with the tokens that
//! a batch in lockstep gives, and in the order of the requests where all are as long.
use super::batch;
use super::continuous;
use super::continuous::BatchModel;
use super::continuous::CompletedModel;
use super::continuous::RequestModel;
use super::continuous::Seat;
use super::network::Network;
use super::unit::Op;
use vstd::prelude::*;

verus! {

/// A batch in which nothing has happened yet: all requests wait, in the order of their numbers.
pub open spec fn untouched(requests: Seq<RequestModel>, m: BatchModel) -> bool {
    &&& m.queue == requests
    &&& m.done.len() == 0
    &&& continuous::taken(m.seats) == 0
    &&& requests.len() <= u64::MAX
    &&& forall|i: int| 0 <= i < requests.len() ==> (#[trigger] requests[i]).id == i
}

/// In a queue with numbers one after the other each stands once.
proof fn each_queued_once(queue: Seq<RequestModel>, from: int, id: u64)
    requires
        forall|i: int| 0 <= i < queue.len() ==> (#[trigger] queue[i]).id == from + i,
    ensures
        continuous::times_queued(queue, id) == (if from <= id < from + queue.len() {
            1nat
        } else {
            0
        }),
    decreases queue.len(),
{
    if queue.len() > 0 {
        let rest = queue.skip(1);
        assert forall|i: int| 0 <= i < rest.len() implies (#[trigger] rest[i]).id == from + 1 + i by {
            assert(rest[i] == queue[i + 1]);
        }
        each_queued_once(rest, from + 1, id);
    }
}

/// Where nothing waits and no slot is in use, a number stands among what is done or nowhere.
proof fn idle_times(m: BatchModel, id: u64)
    requires
        !continuous::busy(m),
    ensures
        continuous::times(m, id) == continuous::times_done(m.done, id),
{
    let bare = BatchModel { done: Seq::empty(), ..m };
    assert forall|b: int| 0 <= b < bare.seats.len() implies continuous::times_seated(#[trigger] bare.seats[b], id) == 0 by {
        continuous::none_taken(m.seats, b);
    }
    continuous::unknown_stands_nowhere(bare, id);
}

/// A run that goes on until nothing waits and no slot is in use answers each request once, and
/// nothing else.
pub proof fn each_answered_once(requests: Seq<RequestModel>, m: BatchModel, picks: Seq<Seq<u32>>)
    requires
        untouched(requests, m),
        !continuous::busy(continuous::run_by(m, picks).0),
    ensures
        continuous::run_by(m, picks).1.len() == requests.len(),
        forall|id: u64| #[trigger] continuous::times_done(continuous::run_by(m, picks).1, id) == (if id < requests.len() {
            1nat
        } else {
            0
        }),
{
    let (after, out) = continuous::run_by(m, picks);
    continuous::run_keeps(m, picks, 0);
    assert(after.done.len() == 0);
    assert forall|id: u64| #[trigger] continuous::times_done(out, id) == (if id < requests.len() {
        1nat
    } else {
        0
    }) by {
        continuous::run_keeps(m, picks, id);
        each_queued_once(requests, 0, id);
        let waiting = BatchModel { queue: Seq::empty(), ..m };
        idle_times(waiting, id);
        idle_times(after, id);
    }
}

/// Requests with numbers one after the other that all ask for so many tokens and are ended by
/// none.
pub open spec fn as_long(requests: Seq<RequestModel>, limit: usize) -> bool {
    forall|i: int|
        0 <= i < requests.len() ==> {
            &&& (#[trigger] requests[i]).id == i
            &&& requests[i].max_new_tokens == limit
            &&& requests[i].eos is None
        }
}

/// What sits in slot `i`, where the first `width` slots hold sequences with numbers one after the
/// other, each with `len` tokens, and the others are free.
pub open spec fn in_row(seat: Option<Seat>, i: int, base: int, width: int, len: nat, limit: usize) -> bool {
    if i < width {
        seat matches Some(s) && s.id == base + i && s.max_new_tokens == limit && s.eos is None && s.output.len() == len
    } else {
        seat is None
    }
}

/// The first `width` slots hold sequences with numbers one after the other, each with `len`
/// tokens, and the others are free.
pub open spec fn abreast(seats: Seq<Option<Seat>>, base: int, width: int, len: nat, limit: usize) -> bool {
    &&& 0 <= width <= seats.len()
    &&& forall|i: int| 0 <= i < seats.len() ==> in_row(#[trigger] seats[i], i, base, width, len, limit)
}

/// Finished sequences have numbers one after the other.
pub open spec fn counted(done: Seq<CompletedModel>, from: int) -> bool {
    forall|i: int| 0 <= i < done.len() ==> (#[trigger] done[i]).id == from + i
}

/// The first free slot is the one after the slots in use.
proof fn free_after(seats: Seq<Option<Seat>>, base: int, width: int, len: nat, limit: usize, b: int)
    requires
        abreast(seats, base, width, len, limit),
        0 <= b <= width,
    ensures
        continuous::first_free(seats, b) == (if width < seats.len() {
            Some(width)
        } else {
            None
        }),
    decreases width - b,
{
    if b < seats.len() {
        assert(in_row(seats[b], b, base, width, len, limit));
        if b < width {
            free_after(seats, base, width, len, limit, b + 1);
        }
    }
}

/// Seating puts the next requests into the free slots, in order.
proof fn seated_in_row(requests: Seq<RequestModel>, m: BatchModel, base: int, width: int, limit: usize)
    requires
        as_long(requests, limit),
        limit > 0,
        abreast(m.seats, base, width, 0, limit),
        0 <= base,
        base + width <= requests.len(),
        m.queue == requests.skip(base + width),
    ensures
        ({
            let s = continuous::seated(m);
            let all = if m.seats.len() < requests.len() - base { m.seats.len() as int } else { requests.len() - base };
            &&& abreast(s.seats, base, all, 0, limit)
            &&& s.seats.len() == m.seats.len()
            &&& s.queue == requests.skip(base + all)
            &&& s.done == m.done
        }),
    decreases requests.len() - base - width,
{
    free_after(m.seats, base, width, 0, limit, 0);
    if width < m.seats.len() && m.queue.len() > 0 {
        let next = continuous::seated_one(m, width);
        assert(m.queue[0] == requests[base + width]);
        assert(next.queue =~= requests.skip(base + width + 1));
        assert forall|i: int| 0 <= i < next.seats.len() implies in_row(#[trigger] next.seats[i], i, base, width + 1, 0, limit) by {
            if i != width {
                assert(in_row(m.seats[i], i, base, width, 0, limit));
            }
        }
        seated_in_row(requests, next, base, width + 1, limit);
    }
}

/// Where requests ask for no tokens, seating finishes all of them, in order.
proof fn none_seated(requests: Seq<RequestModel>, m: BatchModel, base: int)
    requires
        as_long(requests, 0),
        m.seats.len() > 0,
        abreast(m.seats, 0, 0, 0, 0),
        0 <= base,
        base + m.done.len() <= requests.len(),
        m.queue == requests.skip(base + m.done.len()),
        counted(m.done, base),
    ensures
        continuous::seated(m).seats == m.seats,
        continuous::seated(m).queue.len() == 0,
        continuous::seated(m).done.len() == requests.len() - base,
        counted(continuous::seated(m).done, base),
    decreases m.queue.len(),
{
    free_after(m.seats, 0, 0, 0, 0, 0);
    if m.queue.len() > 0 {
        let next = continuous::seated_one(m, 0);
        assert(m.queue[0] == requests[base + m.done.len()]);
        assert(next.queue =~= requests.skip(base + next.done.len()));
        assert forall|i: int| 0 <= i < next.done.len() implies (#[trigger] next.done[i]).id == base + i by {
            if i < m.done.len() {
                assert(next.done[i] == m.done[i]);
            }
        }
        none_seated(requests, next, base);
    }
}

/// Slots that are all free take no tokens.
proof fn none_served(m: BatchModel, picked: Seq<u32>, n: int)
    requires
        0 <= n <= m.seats.len(),
        forall|i: int| 0 <= i < m.seats.len() ==> (#[trigger] m.seats[i]) is None,
    ensures
        continuous::served(m, picked, n) == m,
    decreases n,
{
    if n > 0 {
        none_served(m, picked, n - 1);
    }
}

/// Serving gives each sequence one more token; where that is the last, all finish in order.
proof fn served_in_row(m: BatchModel, picked: Seq<u32>, n: int, base: int, width: int, len: nat, limit: usize)
    requires
        abreast(m.seats, base, width, len, limit),
        m.done.len() == 0,
        0 <= n <= m.seats.len(),
    ensures
        ({
            let s = continuous::served(m, picked, n);
            let last = len + 1 >= limit;
            let ran = if n < width { n } else { width };
            &&& s.queue == m.queue
            &&& s.seats.len() == m.seats.len()
            &&& forall|i: int| n <= i < s.seats.len() ==> #[trigger] s.seats[i] == m.seats[i]
            &&& forall|i: int|
                0 <= i < n ==> in_row(
                    #[trigger] s.seats[i],
                    i,
                    base,
                    if last {
                        0
                    } else {
                        width
                    },
                    len + 1,
                    limit,
                )
            &&& counted(s.done, base)
            &&& s.done.len() == (if last {
                ran
            } else {
                0
            })
        }),
    decreases n,
{
    if n > 0 {
        served_in_row(m, picked, n - 1, base, width, len, limit);
        let before = continuous::served(m, picked, n - 1);
        let after = continuous::served(m, picked, n);
        assert(before.seats[n - 1] == m.seats[n - 1]);
        assert(in_row(m.seats[n - 1], n - 1, base, width, len, limit));
        let last = len + 1 >= limit;
        assert forall|i: int| 0 <= i < n implies in_row(
            #[trigger] after.seats[i],
            i,
            base,
            if last {
                0
            } else {
                width
            },
            len + 1,
            limit,
        ) by {
            if i < n - 1 {
                assert(after.seats[i] == before.seats[i]);
            }
        }
        assert forall|i: int| 0 <= i < after.done.len() implies (#[trigger] after.done[i]).id == base + i by {
            if i < before.done.len() {
                assert(after.done[i] == before.done[i]);
            }
        }
    }
}

/// A run between two steps: the sequences that have finished are the first requests, in order, and
/// the slots hold the next ones, all with as many tokens; while they do, no slot is free or no
/// request waits.
pub open spec fn in_order(
    requests: Seq<RequestModel>,
    m: BatchModel,
    out: Seq<CompletedModel>,
    width: int,
    len: nat,
    limit: usize,
) -> bool {
    let base = out.len() as int;
    &&& m.seats.len() > 0
    &&& abreast(m.seats, base, width, len, limit)
    &&& base + width <= requests.len()
    &&& m.queue == requests.skip(base + width)
    &&& m.done.len() == 0
    &&& counted(out, 0)
    &&& width > 0 ==> 0 < len < limit && (width == m.seats.len() || base + width == requests.len())
}

/// A step keeps the order.
proof fn step_in_order(
    requests: Seq<RequestModel>,
    m: BatchModel,
    out: Seq<CompletedModel>,
    width: int,
    len: nat,
    limit: usize,
    picked: Seq<u32>,
) -> (r: (int, nat))
    requires
        as_long(requests, limit),
        in_order(requests, m, out, width, len, limit),
    ensures
        ({
            let after = continuous::stepped_by(m, picked);
            in_order(requests, BatchModel { done: Seq::empty(), ..after }, out + after.done, r.0, r.1, limit)
        }),
{
    let base = out.len() as int;
    let n = m.seats.len() as int;
    let s = continuous::seated(m);
    let after = continuous::stepped_by(m, picked);
    let rest = BatchModel { done: Seq::empty(), ..after };
    if limit == 0 {
        assert forall|i: int| 0 <= i < n implies in_row(#[trigger] m.seats[i], i, 0, 0, 0, 0) by {
            assert(in_row(m.seats[i], i, base, width, len, limit));
        }
        none_seated(requests, m, base);
        assert forall|i: int| 0 <= i < s.seats.len() implies (#[trigger] s.seats[i]) is None by {
            assert(in_row(m.seats[i], i, 0, 0, 0, 0));
        }
        none_served(s, picked, n);
        let all = out + after.done;
        assert(counted(all, 0));
        assert(rest.queue =~= requests.skip(all.len() as int));
        assert forall|i: int| 0 <= i < rest.seats.len() implies in_row(#[trigger] rest.seats[i], i, all.len() as int, 0, 0, limit) by {
            assert(s.seats[i] is None);
        }
        (0, 0)
    } else {
        let wide = if width > 0 {
            free_after(m.seats, base, width, len, limit, 0);
            assert(s == m);
            width
        } else {
            assert forall|i: int| 0 <= i < n implies in_row(#[trigger] m.seats[i], i, base, 0, 0, limit) by {
                assert(in_row(m.seats[i], i, base, width, len, limit));
            }
            seated_in_row(requests, m, base, 0, limit);
            if n < requests.len() - base {
                n
            } else {
                requests.len() - base
            }
        };
        let had = if width > 0 {
            len
        } else {
            0
        };
        served_in_row(s, picked, n, base, wide, had, limit);
        let all = out + after.done;
        assert(counted(all, 0)) by {
            assert forall|i: int| 0 <= i < all.len() implies (#[trigger] all[i]).id == i by {
                if i < out.len() {
                    assert(all[i] == out[i]);
                } else {
                    assert(all[i] == after.done[i - out.len()]);
                }
            }
        }
        if had + 1 >= limit {
            assert forall|i: int| 0 <= i < rest.seats.len() implies in_row(#[trigger] rest.seats[i], i, all.len() as int, 0, 0, limit) by {
                assert(in_row(after.seats[i], i, base, 0, had + 1, limit));
            }
            (0, 0)
        } else {
            assert(all =~= out);
            assert forall|i: int| 0 <= i < rest.seats.len() implies in_row(#[trigger] rest.seats[i], i, base, wide, had + 1, limit) by {
                assert(in_row(after.seats[i], i, base, wide, had + 1, limit));
            }
            (wide, had + 1)
        }
    }
}

/// A run keeps the order.
proof fn run_in_order(requests: Seq<RequestModel>, m: BatchModel, picks: Seq<Seq<u32>>, limit: usize) -> (r: (int, nat))
    requires
        untouched(requests, m),
        as_long(requests, limit),
        m.seats.len() > 0,
    ensures
        in_order(requests, continuous::run_by(m, picks).0, continuous::run_by(m, picks).1, r.0, r.1, limit),
    decreases picks.len(),
{
    if picks.len() == 0 {
        assert forall|i: int| 0 <= i < m.seats.len() implies in_row(#[trigger] m.seats[i], i, 0, 0, 0, limit) by {
            continuous::none_taken(m.seats, i);
        }
        assert(m.queue =~= requests.skip(0));
        (0, 0)
    } else {
        let (width, len) = run_in_order(requests, m, picks.drop_last(), limit);
        let (before, out) = continuous::run_by(m, picks.drop_last());
        step_in_order(requests, before, out, width, len, limit, picks.last())
    }
}

/// Where all requests ask for as many tokens and none is ended by a token, a run that goes on to
/// the end gives the sequences in the order of the requests, however many slots there are.
pub proof fn finishes_in_order(requests: Seq<RequestModel>, m: BatchModel, picks: Seq<Seq<u32>>, limit: usize)
    requires
        untouched(requests, m),
        as_long(requests, limit),
        m.seats.len() > 0,
        !continuous::busy(continuous::run_by(m, picks).0),
    ensures
        continuous::run_by(m, picks).1.len() == requests.len(),
        forall|i: int| 0 <= i < requests.len() ==> (#[trigger] continuous::run_by(m, picks).1[i]).id == i,
{
    let (after, out) = continuous::run_by(m, picks);
    let (width, len) = run_in_order(requests, m, picks, limit);
    if width > 0 {
        assert(in_row(after.seats[0], 0, out.len() as int, width, len, limit));
        continuous::none_taken(after.seats, 0);
    }
    assert(requests.skip(out.len() as int).len() == 0);
}

impl Network {
    /// Where picking leaves no choice, a continuous batch that runs to the end gives what a batch
    /// in lockstep gives, token for token: one answer for each request, with the tokens that the
    /// lockstep batch has for its prompt; and where no token ends a sequence, in the same order.
    pub proof fn continuous_is_lockstep<F: Fn(Op, &[u32], &[u32], &[u32]) -> Vec<u32>, P: Fn(&[u32]) -> u32>(
        self,
        unit: F,
        pick: P,
        requests: Seq<RequestModel>,
        m: BatchModel,
        picks: Seq<Seq<u32>>,
        limit: usize,
        eos: Option<u32>,
        lockstep: Seq<Seq<u32>>,
    )
        requires
            batch::decided(pick),
            untouched(requests, m),
            m.seats.len() > 0,
            !continuous::busy(continuous::run_by(m, picks).0),
            forall|i: int|
                0 <= i < requests.len() ==> (#[trigger] requests[i]).max_new_tokens == limit && requests[i].eos == eos,
            forall|i: int|
                0 <= i < continuous::run_by(m, picks).1.len() ==> self.answered(
                    unit,
                    pick,
                    requests,
                    #[trigger] continuous::run_by(m, picks).1[i],
                ),
            lockstep.len() == requests.len(),
            forall|i: int| 0 <= i < requests.len() ==> self.follows(unit, pick, batch::run_prompt(requests[i].prompt), #[trigger] lockstep[i]),
            forall|i: int| 0 <= i < requests.len() ==> batch::stops(#[trigger] lockstep[i], limit as int, eos),
        ensures
            ({
                let out = continuous::run_by(m, picks).1;
                &&& out.len() == requests.len()
                &&& forall|id: u64| id < requests.len() ==> #[trigger] continuous::times_done(out, id) == 1
                &&& forall|i: int| 0 <= i < out.len() ==> (#[trigger] out[i]).id < requests.len() && out[i].tokens == lockstep[out[i].id as int]
                &&& eos is None ==> forall|i: int| 0 <= i < out.len() ==> (#[trigger] out[i]).id == i && out[i].tokens == lockstep[i]
            }),
    {
        let out = continuous::run_by(m, picks).1;
        each_answered_once(requests, m, picks);
        assert forall|i: int| 0 <= i < out.len() implies (#[trigger] out[i]).id < requests.len() && out[i].tokens == lockstep[out[i].id as int] by {
            let c = out[i];
            assert(self.answered(unit, pick, requests, c));
            let r = requests[c.id as int];
            assert(batch::stops(lockstep[c.id as int], limit as int, eos));
            self.one_answer(unit, pick, r.prompt, limit as int, eos, c.tokens, lockstep[c.id as int]);
        }
        if eos is None {
            finishes_in_order(requests, m, picks, limit);
            assert forall|i: int| 0 <= i < out.len() implies (#[trigger] out[i]).id == i by {
                assert(continuous::run_by(m, picks).1[i].id == i);
            }
        }
    }
}

} // verus!
