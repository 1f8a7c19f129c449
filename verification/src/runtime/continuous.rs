//! Continuous batching: requests wait in a queue for a free slot of the cache, and a sequence
//! that has finished leaves its slot to the next request while the others go on.
use super::batch;
use super::cache::KvCache;
use super::generate;
use super::model::Model;
use super::network::Network;
use super::unit;
use super::unit::Op;
use crate::tensor::shape;
use crate::tensor::tensor::Tensor;
use std::collections::VecDeque;
use vstd::prelude::*;

verus! {

/// A request that waits for a free slot.
pub struct Request {
    pub id: u64,
    pub prompt: Vec<u32>,
    pub max_new_tokens: usize,
    pub eos: Option<u32>,
}

/// What a request asks for.
pub struct RequestModel {
    pub id: u64,
    pub prompt: Seq<u32>,
    pub max_new_tokens: usize,
    pub eos: Option<u32>,
}

impl View for Request {
    type V = RequestModel;

    open spec fn view(&self) -> RequestModel {
        RequestModel { id: self.id, prompt: self.prompt@, max_new_tokens: self.max_new_tokens, eos: self.eos }
    }
}

/// A sequence that is finished.
#[derive(Debug, PartialEq)]
pub struct CompletedSequence {
    pub id: u64,
    pub tokens: Vec<u32>,
}

/// The tokens of a request that is finished.
pub struct CompletedModel {
    pub id: u64,
    pub tokens: Seq<u32>,
}

impl View for CompletedSequence {
    type V = CompletedModel;

    open spec fn view(&self) -> CompletedModel {
        CompletedModel { id: self.id, tokens: self.tokens@ }
    }
}

/// A sequence that is being generated in a slot.
pub struct ActiveSeq {
    pub id: u64,
    pub max_new_tokens: usize,
    pub eos: Option<u32>,
    pub output: Vec<u32>,
    /// The scores of the next token.
    pub logits: Vec<u32>,
}

/// A sequence that is being generated.
pub struct Seat {
    pub id: u64,
    pub max_new_tokens: usize,
    pub eos: Option<u32>,
    pub output: Seq<u32>,
}

impl View for ActiveSeq {
    type V = Seat;

    open spec fn view(&self) -> Seat {
        Seat { id: self.id, max_new_tokens: self.max_new_tokens, eos: self.eos, output: self.output@ }
    }
}

/// Requests in a queue and sequences in slots.
pub struct ContinuousBatch {
    pub capacity: usize,
    pub active: Vec<Option<ActiveSeq>>,
    pub queue: VecDeque<Request>,
    pub next_id: u64,
    pub iterations: usize,
    pub completed: Vec<CompletedSequence>,
    /// All requests so far, by their numbers.
    pub requests: Ghost<Seq<RequestModel>>,
}

/// The state of the slots and the queue.
#[verifier::ext_equal]
pub struct BatchModel {
    pub seats: Seq<Option<Seat>>,
    pub queue: Seq<RequestModel>,
    pub done: Seq<CompletedModel>,
}

/// What sits in a slot.
pub open spec fn seat_of(active: Option<ActiveSeq>) -> Option<Seat> {
    match active {
        Some(a) => Some(a@),
        None => None,
    }
}

impl View for ContinuousBatch {
    type V = BatchModel;

    open spec fn view(&self) -> BatchModel {
        BatchModel {
            seats: Seq::new(self.active@.len(), |b: int| seat_of(self.active@[b])),
            queue: Seq::new(self.queue@.len(), |i: int| self.queue@[i]@),
            done: Seq::new(self.completed@.len(), |i: int| self.completed@[i]@),
        }
    }
}

/// The number of slots in use.
pub open spec fn taken(seats: Seq<Option<Seat>>) -> nat
    decreases seats.len(),
{
    if seats.len() == 0 {
        0
    } else {
        taken(seats.drop_last()) + (if seats.last() is Some {
            1nat
        } else {
            0
        })
    }
}

/// The number of slots in use is at most the number of slots.
pub proof fn taken_bound(seats: Seq<Option<Seat>>)
    ensures
        taken(seats) <= seats.len(),
    decreases seats.len(),
{
    if seats.len() > 0 {
        taken_bound(seats.drop_last());
    }
}

/// Filling or freeing a slot changes the number of slots in use by that one.
pub proof fn taken_update(seats: Seq<Option<Seat>>, b: int, seat: Option<Seat>)
    requires
        0 <= b < seats.len(),
    ensures
        taken(seats.update(b, seat)) + (if seats[b] is Some {
            1int
        } else {
            0
        }) == taken(seats) + (if seat is Some {
            1int
        } else {
            0
        }),
    decreases seats.len(),
{
    let last = seats.len() - 1;
    if b < last {
        taken_update(seats.drop_last(), b, seat);
        assert(seats.update(b, seat).drop_last() =~= seats.drop_last().update(b, seat));
    } else {
        assert(seats.update(b, seat).drop_last() =~= seats.drop_last());
    }
}

/// The first free slot, from slot `b` on.
pub open spec fn first_free(seats: Seq<Option<Seat>>, b: int) -> Option<int>
    decreases seats.len() - b,
{
    if b >= seats.len() {
        None
    } else if seats[b] is None {
        Some(b)
    } else {
        first_free(seats, b + 1)
    }
}

/// The first request of the queue has left it for a free slot, or is done where it asks for no
/// tokens.
pub open spec fn seated_one(m: BatchModel, b: int) -> BatchModel {
    let r = m.queue[0];
    let queue = m.queue.skip(1);
    if r.max_new_tokens == 0 {
        BatchModel { queue, done: m.done.push(CompletedModel { id: r.id, tokens: Seq::empty() }), ..m }
    } else {
        let seat = Seat { id: r.id, max_new_tokens: r.max_new_tokens, eos: r.eos, output: Seq::empty() };
        BatchModel { queue, seats: m.seats.update(b, Some(seat)), ..m }
    }
}

/// Requests leave the queue, in order, for the first free slot, until there is no free slot or
/// no request; one that asks for no tokens is done at once.
pub open spec fn seated(m: BatchModel) -> BatchModel
    decreases m.queue.len(),
{
    match first_free(m.seats, 0) {
        None => m,
        Some(b) => if m.queue.len() == 0 {
            m
        } else {
            seated(seated_one(m, b))
        },
    }
}

/// A slot has taken a token: the sequence goes on, or is done and leaves the slot.
pub open spec fn served_one(m: BatchModel, b: int, token: u32) -> BatchModel {
    match m.seats[b] {
        None => m,
        Some(seat) => {
            let output = seat.output.push(token);
            if output.len() >= seat.max_new_tokens || Some(token) == seat.eos {
                BatchModel {
                    seats: m.seats.update(b, None),
                    done: m.done.push(CompletedModel { id: seat.id, tokens: output }),
                    ..m
                }
            } else {
                BatchModel { seats: m.seats.update(b, Some(Seat { output, ..seat })), ..m }
            }
        },
    }
}

/// The first `n` slots have each taken a token, one after the other.
pub open spec fn served(m: BatchModel, picked: Seq<u32>, n: int) -> BatchModel
    decreases n,
{
    if n <= 0 {
        m
    } else {
        served_one(served(m, picked, n - 1), n - 1, picked[n - 1])
    }
}

/// How many requests are in the queue, in slots or done.
pub open spec fn total(m: BatchModel) -> nat {
    m.queue.len() + taken(m.seats) + m.done.len()
}

/// How often a number stands in a queue.
pub open spec fn times_queued(queue: Seq<RequestModel>, id: u64) -> nat
    decreases queue.len(),
{
    if queue.len() == 0 {
        0
    } else {
        times_queued(queue.skip(1), id) + (if queue[0].id == id {
            1nat
        } else {
            0
        })
    }
}

/// How often a number stands in a slot: once or not at all.
pub open spec fn times_seated(seat: Option<Seat>, id: u64) -> nat {
    if seat is Some && seat.unwrap().id == id {
        1
    } else {
        0
    }
}

/// How often a number stands in the slots.
pub open spec fn times_in_seats(seats: Seq<Option<Seat>>, id: u64) -> nat
    decreases seats.len(),
{
    if seats.len() == 0 {
        0
    } else {
        times_in_seats(seats.drop_last(), id) + times_seated(seats.last(), id)
    }
}

/// How often a number stands among finished sequences.
pub open spec fn times_done(done: Seq<CompletedModel>, id: u64) -> nat
    decreases done.len(),
{
    if done.len() == 0 {
        0
    } else {
        times_done(done.drop_last(), id) + (if done.last().id == id {
            1nat
        } else {
            0
        })
    }
}

/// How often the number of a request stands in the queue, in slots and among what is done.
pub open spec fn times(m: BatchModel, id: u64) -> nat {
    times_queued(m.queue, id) + times_in_seats(m.seats, id) + times_done(m.done, id)
}

/// One more request at the end of a queue counts once.
pub proof fn times_queued_push(queue: Seq<RequestModel>, r: RequestModel, id: u64)
    ensures
        times_queued(queue.push(r), id) == times_queued(queue, id) + (if r.id == id {
            1nat
        } else {
            0
        }),
    decreases queue.len(),
{
    if queue.len() > 0 {
        times_queued_push(queue.skip(1), r, id);
        assert(queue.push(r).skip(1) =~= queue.skip(1).push(r));
    } else {
        assert(times_queued(queue.push(r).skip(1), id) == 0);
    }
}

/// Changing one slot changes the count by what it changes there.
pub proof fn times_in_seats_update(seats: Seq<Option<Seat>>, b: int, seat: Option<Seat>, id: u64)
    requires
        0 <= b < seats.len(),
    ensures
        times_in_seats(seats.update(b, seat), id) + times_seated(seats[b], id) == times_in_seats(seats, id) + times_seated(seat, id),
    decreases seats.len(),
{
    if b < seats.len() - 1 {
        times_in_seats_update(seats.drop_last(), b, seat, id);
        assert(seats.update(b, seat).drop_last() =~= seats.drop_last().update(b, seat));
    } else {
        assert(seats.update(b, seat).drop_last() =~= seats.drop_last());
    }
}

/// One more finished sequence counts once.
pub proof fn times_done_push(done: Seq<CompletedModel>, c: CompletedModel, id: u64)
    ensures
        times_done(done.push(c), id) == times_done(done, id) + (if c.id == id {
            1nat
        } else {
            0
        }),
{
    assert(done.push(c).drop_last() =~= done);
}

/// Finished sequences after others count as both do.
pub proof fn times_done_joined(a: Seq<CompletedModel>, b: Seq<CompletedModel>, id: u64)
    ensures
        times_done(a + b, id) == times_done(a, id) + times_done(b, id),
    decreases b.len(),
{
    if b.len() > 0 {
        times_done_joined(a, b.drop_last(), id);
        assert((a + b).drop_last() =~= a + b.drop_last());
    } else {
        assert(a + b =~= a);
    }
}

/// A number that no request has yet stands nowhere.
pub proof fn unknown_stands_nowhere(m: BatchModel, id: u64)
    requires
        forall|i: int| 0 <= i < m.queue.len() ==> (#[trigger] m.queue[i]).id != id,
        forall|b: int| 0 <= b < m.seats.len() ==> times_seated(#[trigger] m.seats[b], id) == 0,
        forall|i: int| 0 <= i < m.done.len() ==> (#[trigger] m.done[i]).id != id,
    ensures
        times(m, id) == 0,
    decreases m.queue.len() + m.seats.len() + m.done.len(),
{
    if m.queue.len() > 0 {
        let rest = m.queue.skip(1);
        assert forall|i: int| 0 <= i < rest.len() implies (#[trigger] rest[i]).id != id by {
            assert(rest[i] == m.queue[i + 1]);
        }
        unknown_stands_nowhere(BatchModel { queue: rest, ..m }, id);
    } else if m.seats.len() > 0 {
        let rest = m.seats.drop_last();
        assert forall|b: int| 0 <= b < rest.len() implies times_seated(#[trigger] rest[b], id) == 0 by {
            assert(rest[b] == m.seats[b]);
        }
        unknown_stands_nowhere(BatchModel { seats: rest, ..m }, id);
        assert(times_seated(m.seats[m.seats.len() - 1], id) == 0);
    } else if m.done.len() > 0 {
        let rest = m.done.drop_last();
        assert forall|i: int| 0 <= i < rest.len() implies (#[trigger] rest[i]).id != id by {
            assert(rest[i] == m.done[i]);
        }
        unknown_stands_nowhere(BatchModel { done: rest, ..m }, id);
        assert(m.done[m.done.len() - 1].id != id);
    }
}

/// A request that leaves the queue stands elsewhere.
pub proof fn seated_one_times(m: BatchModel, b: int, id: u64)
    requires
        m.queue.len() > 0,
        0 <= b < m.seats.len(),
        m.seats[b] is None,
    ensures
        times(seated_one(m, b), id) == times(m, id),
{
    let r = m.queue[0];
    let seat = Seat { id: r.id, max_new_tokens: r.max_new_tokens, eos: r.eos, output: Seq::empty() };
    times_done_push(m.done, CompletedModel { id: r.id, tokens: Seq::empty() }, id);
    times_in_seats_update(m.seats, b, Some(seat), id);
}

/// A sequence that takes a token stays in its slot or is done.
pub proof fn served_one_times(m: BatchModel, b: int, token: u32, id: u64)
    requires
        0 <= b < m.seats.len(),
    ensures
        times(served_one(m, b, token), id) == times(m, id),
{
    if let Some(seat) = m.seats[b] {
        let output = seat.output.push(token);
        times_done_push(m.done, CompletedModel { id: seat.id, tokens: output }, id);
        times_in_seats_update(m.seats, b, None, id);
        times_in_seats_update(m.seats, b, Some(Seat { output, ..seat }), id);
    }
}

/// Seating requests leaves each of them where it can be found as often as before.
pub proof fn seated_times(m: BatchModel, id: u64)
    ensures
        times(seated(m), id) == times(m, id),
    decreases m.queue.len(),
{
    first_free_is_free(m.seats, 0);
    if let Some(b) = first_free(m.seats, 0) {
        if m.queue.len() > 0 {
            seated_one_times(m, b, id);
            seated_times(seated_one(m, b), id);
        }
    }
}

/// Serving slots leaves each request where it can be found as often as before.
pub proof fn served_times(m: BatchModel, picked: Seq<u32>, n: int, id: u64)
    requires
        0 <= n <= m.seats.len(),
    ensures
        times(served(m, picked, n), id) == times(m, id),
    decreases n,
{
    if n > 0 {
        served_times(m, picked, n - 1, id);
        served_keeps(m, picked, n - 1);
        served_one_times(served(m, picked, n - 1), n - 1, picked[n - 1], id);
    }
}

/// A step in which these tokens were picked, one for each slot.
pub open spec fn stepped_by(m: BatchModel, picked: Seq<u32>) -> BatchModel {
    served(seated(m), picked, m.seats.len() as int)
}

/// The state after steps in which these tokens were picked, where what has finished is taken out
/// after each, and all that was taken out, in that order.
pub open spec fn run_by(m: BatchModel, picks: Seq<Seq<u32>>) -> (BatchModel, Seq<CompletedModel>)
    decreases picks.len(),
{
    if picks.len() == 0 {
        (m, Seq::empty())
    } else {
        let (before, out) = run_by(m, picks.drop_last());
        let after = stepped_by(before, picks.last());
        (BatchModel { done: Seq::empty(), ..after }, out + after.done)
    }
}

/// Requests wait or slots are in use.
pub open spec fn busy(m: BatchModel) -> bool {
    m.queue.len() > 0 || taken(m.seats) > 0
}

/// The contents of a list of finished sequences.
pub open spec fn completed(list: Seq<CompletedSequence>) -> Seq<CompletedModel> {
    Seq::new(list.len(), |i: int| list[i]@)
}

/// A run loses no request and answers none twice: each stands as often among what was taken out
/// and what is left as it stood before.
pub proof fn run_keeps(m: BatchModel, picks: Seq<Seq<u32>>, id: u64)
    ensures
        times_done(run_by(m, picks).1, id) + times(run_by(m, picks).0, id) == times(m, id),
        run_by(m, picks).1.len() + total(run_by(m, picks).0) == total(m),
        run_by(m, picks).0.seats.len() == m.seats.len(),
    decreases picks.len(),
{
    if picks.len() > 0 {
        run_keeps(m, picks.drop_last(), id);
        let (before, out) = run_by(m, picks.drop_last());
        let after = stepped_by(before, picks.last());
        seated_keeps(before);
        seated_times(before, id);
        served_keeps(seated(before), picks.last(), before.seats.len() as int);
        served_times(seated(before), picks.last(), before.seats.len() as int, id);
        times_done_joined(out, after.done, id);
    }
}

/// Serving a slot leaves those after it alone and loses no request.
pub proof fn served_keeps(m: BatchModel, picked: Seq<u32>, n: int)
    requires
        0 <= n <= m.seats.len(),
    ensures
        served(m, picked, n).seats.len() == m.seats.len(),
        forall|b: int| n <= b < m.seats.len() ==> #[trigger] served(m, picked, n).seats[b] == m.seats[b],
        served(m, picked, n).queue == m.queue,
        total(served(m, picked, n)) == total(m),
    decreases n,
{
    if n > 0 {
        served_keeps(m, picked, n - 1);
        let before = served(m, picked, n - 1);
        if let Some(seat) = before.seats[n - 1] {
            let output = seat.output.push(picked[n - 1]);
            taken_update(before.seats, n - 1, None);
            taken_update(before.seats, n - 1, Some(Seat { output, ..seat }));
        }
    }
}

/// The first free slot is a free slot.
pub proof fn first_free_is_free(seats: Seq<Option<Seat>>, b: int)
    requires
        0 <= b,
    ensures
        first_free(seats, b) matches Some(f) ==> b <= f < seats.len() && seats[f] is None,
        first_free(seats, b) is None ==> forall|j: int| b <= j < seats.len() ==> #[trigger] seats[j] is Some,
    decreases seats.len() - b,
{
    if b < seats.len() && seats[b] is Some {
        first_free_is_free(seats, b + 1);
        if first_free(seats, b) is None {
            assert forall|j: int| b <= j < seats.len() implies #[trigger] seats[j] is Some by {
                if j > b {
                    assert(first_free(seats, b + 1) is None);
                }
            }
        }
    }
}

/// Seating requests loses none and leaves no free slot while requests wait.
pub proof fn seated_keeps(m: BatchModel)
    ensures
        seated(m).seats.len() == m.seats.len(),
        total(seated(m)) == total(m),
        seated(m).queue.len() == 0 || first_free(seated(m).seats, 0) is None,
        seated(m).queue.len() <= m.queue.len(),
        seated(m).queue == m.queue.skip(m.queue.len() - seated(m).queue.len()),
    decreases m.queue.len(),
{
    first_free_is_free(m.seats, 0);
    if let Some(b) = first_free(m.seats, 0) {
        if m.queue.len() > 0 {
            let r = m.queue[0];
            let queue = m.queue.skip(1);
            let next = if r.max_new_tokens == 0 {
                BatchModel { queue, done: m.done.push(CompletedModel { id: r.id, tokens: Seq::empty() }), ..m }
            } else {
                let seat = Seat { id: r.id, max_new_tokens: r.max_new_tokens, eos: r.eos, output: Seq::empty() };
                taken_update(m.seats, b, Some(seat));
                BatchModel { queue, seats: m.seats.update(b, Some(seat)), ..m }
            };
            seated_keeps(next);
            let k = next.queue.len() - seated(next).queue.len();
            assert(next.queue.skip(k) =~= m.queue.skip(k + 1));
            assert(seated(m) == seated(next));
        } else {
            assert(m.queue.skip(0) =~= m.queue);
        }
    } else {
        assert(m.queue.skip(0) =~= m.queue);
    }
}

/// How many tokens the requests in a queue may still take; one that asks for none counts as one.
pub open spec fn queue_load(queue: Seq<RequestModel>) -> nat
    decreases queue.len(),
{
    if queue.len() == 0 {
        0
    } else {
        queue_load(queue.skip(1)) + (if queue[0].max_new_tokens > 0 {
            queue[0].max_new_tokens as nat
        } else {
            1
        })
    }
}

/// How many tokens a sequence may still take.
pub open spec fn seat_load(seat: Option<Seat>) -> int {
    match seat {
        Some(s) => s.max_new_tokens - s.output.len(),
        None => 0,
    }
}

/// How many tokens the sequences in slots may still take.
pub open spec fn seats_load(seats: Seq<Option<Seat>>) -> int
    decreases seats.len(),
{
    if seats.len() == 0 {
        0
    } else {
        seats_load(seats.drop_last()) + seat_load(seats.last())
    }
}

/// How many tokens the requests may still take, in the queue and in slots.
pub open spec fn load(m: BatchModel) -> int {
    queue_load(m.queue) + seats_load(m.seats)
}

/// No sequence in a slot has taken all its tokens.
pub open spec fn unfinished_seats(seats: Seq<Option<Seat>>) -> bool {
    forall|b: int| 0 <= b < seats.len() ==> #[trigger] unfinished_seat(seats[b])
}

/// A slot is free, or its sequence has not taken all its tokens.
pub open spec fn unfinished_seat(seat: Option<Seat>) -> bool {
    seat matches Some(s) ==> s.output.len() < s.max_new_tokens
}

/// Changing one slot changes the load by what it changes there.
proof fn seats_load_update(seats: Seq<Option<Seat>>, b: int, seat: Option<Seat>)
    requires
        0 <= b < seats.len(),
    ensures
        seats_load(seats.update(b, seat)) == seats_load(seats) - seat_load(seats[b]) + seat_load(seat),
    decreases seats.len(),
{
    if b < seats.len() - 1 {
        seats_load_update(seats.drop_last(), b, seat);
        assert(seats.update(b, seat).drop_last() =~= seats.drop_last().update(b, seat));
    } else {
        assert(seats.update(b, seat).drop_last() =~= seats.drop_last());
    }
}

/// Slots whose sequences have not finished have a load of at least one for each slot in use.
proof fn seats_load_bound(seats: Seq<Option<Seat>>)
    requires
        unfinished_seats(seats),
    ensures
        seats_load(seats) >= taken(seats),
    decreases seats.len(),
{
    if seats.len() > 0 {
        assert forall|b: int| 0 <= b < seats.drop_last().len() implies #[trigger] unfinished_seat(seats.drop_last()[b]) by {
            assert(unfinished_seat(seats[b]));
        }
        seats_load_bound(seats.drop_last());
        assert(unfinished_seat(seats[seats.len() - 1]));
    }
}

/// Seating requests adds no load; where requests wait and slots are free, it seats one or takes
/// load away.
proof fn seated_load(m: BatchModel)
    requires
        unfinished_seats(m.seats),
        m.seats.len() > 0,
    ensures
        load(seated(m)) <= load(m),
        unfinished_seats(seated(m).seats),
        m.queue.len() > 0 ==> load(seated(m)) < load(m) || taken(seated(m).seats) > 0,
        taken(seated(m).seats) >= taken(m.seats),
    decreases m.queue.len(),
{
    first_free_is_free(m.seats, 0);
    match first_free(m.seats, 0) {
        Some(b) => {
            if m.queue.len() > 0 {
                let r = m.queue[0];
                let queue = m.queue.skip(1);
                if r.max_new_tokens == 0 {
                    seated_load(BatchModel { queue, done: m.done.push(CompletedModel { id: r.id, tokens: Seq::empty() }), ..m });
                } else {
                    let seat = Seat { id: r.id, max_new_tokens: r.max_new_tokens, eos: r.eos, output: Seq::empty() };
                    let next = BatchModel { queue, seats: m.seats.update(b, Some(seat)), ..m };
                    assert forall|c: int| 0 <= c < next.seats.len() implies #[trigger] unfinished_seat(next.seats[c]) by {
                        if c != b {
                            assert(unfinished_seat(m.seats[c]));
                        }
                    }
                    seats_load_update(m.seats, b, Some(seat));
                    taken_update(m.seats, b, Some(seat));
                    seated_load(next);
                }
            }
        },
        None => {
            assert(m.seats[0] is Some);
            if taken(m.seats) == 0 {
                none_taken(m.seats, 0);
            }
        },
    }
}

/// Serving slots takes load away for each slot in use.
proof fn served_load(m: BatchModel, picked: Seq<u32>, n: int)
    requires
        unfinished_seats(m.seats),
        0 <= n <= m.seats.len(),
    ensures
        unfinished_seats(served(m, picked, n).seats),
        load(served(m, picked, n)) <= load(m) - taken(m.seats.take(n)),
    decreases n,
{
    if n > 0 {
        served_load(m, picked, n - 1);
        served_keeps(m, picked, n - 1);
        let before = served(m, picked, n - 1);
        let after = served(m, picked, n);
        assert(m.seats.take(n).drop_last() =~= m.seats.take(n - 1));
        assert(before.seats[n - 1] == m.seats[n - 1]);
        if let Some(seat) = before.seats[n - 1] {
            assert(unfinished_seat(before.seats[n - 1]));
            let output = seat.output.push(picked[n - 1]);
            seats_load_update(before.seats, n - 1, None);
            seats_load_update(before.seats, n - 1, Some(Seat { output, ..seat }));
            assert forall|c: int| 0 <= c < after.seats.len() implies #[trigger] unfinished_seat(after.seats[c]) by {
                if c != n - 1 {
                    assert(unfinished_seat(before.seats[c]));
                }
            }
        }
    } else {
        assert(m.seats.take(0) =~= Seq::<Option<Seat>>::empty());
    }
}

/// While requests wait or slots are in use, each step takes load away: so every request is done
/// after as many steps as there was load.
pub proof fn step_makes_progress(m: BatchModel, picked: Seq<u32>)
    requires
        unfinished_seats(m.seats),
        m.seats.len() > 0,
        m.queue.len() > 0 || taken(m.seats) > 0,
    ensures
        load(served(seated(m), picked, m.seats.len() as int)) < load(m),
        unfinished_seats(served(seated(m), picked, m.seats.len() as int).seats),
{
    seated_load(m);
    seated_keeps(m);
    let s = seated(m);
    served_load(s, picked, m.seats.len() as int);
    assert(s.seats.take(m.seats.len() as int) =~= s.seats);
}

/// A request has the number under which it is kept.
pub open spec fn is_request(requests: Seq<RequestModel>, r: RequestModel) -> bool {
    r.id < requests.len() && requests[r.id as int] == r
}

/// A sequence belongs to a request and has not finished.
pub open spec fn is_seat(requests: Seq<RequestModel>, seat: Seat) -> bool {
    &&& seat.id < requests.len()
    &&& requests[seat.id as int].max_new_tokens == seat.max_new_tokens
    &&& requests[seat.id as int].eos == seat.eos
    &&& seat.output.len() < seat.max_new_tokens
    &&& forall|j: int| 0 <= j < seat.output.len() ==> Some(#[trigger] seat.output[j]) != seat.eos
}

impl ContinuousBatch {
    /// The slots, the queue and the numbers of the requests agree.
    pub open spec fn wf(self) -> bool {
        &&& 0 < self.capacity
        &&& self.active@.len() == self.capacity
        &&& self.requests@.len() == self.next_id
        &&& forall|i: int| 0 <= i < self.queue@.len() ==> is_request(self.requests@, (#[trigger] self.queue@[i])@)
        &&& forall|b: int| 0 <= b < self.active@.len() && (#[trigger] self.active@[b]) is Some ==> is_seat(
            self.requests@,
            self.active@[b].unwrap()@,
        )
        &&& forall|i: int| 0 <= i < self.completed@.len() ==> (#[trigger] self.completed@[i]).id < self.next_id
        &&& forall|id: u64| #[trigger] times(self@, id) <= 1
    }

    /// A batch with this many slots, at least one.
    pub fn new(capacity: usize) -> (r: ContinuousBatch)
        ensures
            r.wf(),
            r.capacity == (if capacity > 1 { capacity } else { 1 }),
            r.next_id == 0,
            r.iterations == 0,
            r@.queue.len() == 0,
            r@.done.len() == 0,
            r@.seats == Seq::new(r.capacity as nat, |b: int| None::<Seat>),
    {
        let capacity: usize = if capacity > 1 { capacity } else { 1 };
        let mut active: Vec<Option<ActiveSeq>> = Vec::new();
        let mut b: usize = 0;
        while b < capacity
            invariant
                b <= capacity,
                active@.len() == b,
                forall|j: int| 0 <= j < b ==> (#[trigger] active@[j]) is None,
            decreases capacity - b,
        {
            active.push(None);
            b = b + 1;
        }
        let r: ContinuousBatch = ContinuousBatch {
            capacity,
            active,
            queue: VecDeque::new(),
            next_id: 0,
            iterations: 0,
            completed: Vec::new(),
            requests: Ghost(Seq::empty()),
        };
        assert(r@.seats =~= Seq::new(r.capacity as nat, |b: int| None::<Seat>));
        assert forall|id: u64| #[trigger] times(r@, id) <= 1 by {
            unknown_stands_nowhere(r@, id);
        }
        r
    }

    /// Puts a request at the end of the queue and gives its number.
    pub fn submit(&mut self, prompt: &[u32], max_new_tokens: usize, eos: Option<u32>) -> (id: u64)
        requires
            old(self).wf(),
            old(self).next_id < u64::MAX,
        ensures
            final(self).wf(),
            id == old(self).next_id,
            final(self).next_id == old(self).next_id + 1,
            final(self).capacity == old(self).capacity,
            final(self).active == old(self).active,
            final(self).iterations == old(self).iterations,
            final(self).completed == old(self).completed,
            final(self)@ == (BatchModel {
                queue: old(self)@.queue.push(RequestModel { id, prompt: prompt@, max_new_tokens, eos }),
                ..old(self)@
            }),
            final(self).requests@ == old(self).requests@.push(RequestModel { id, prompt: prompt@, max_new_tokens, eos }),
    {
        let id: u64 = self.next_id;
        let ghost before = self@;
        let ghost r = RequestModel { id, prompt: prompt@, max_new_tokens, eos };
        let mut owned: Vec<u32> = Vec::new();
        owned.extend_from_slice(prompt);
        assert(owned@ =~= prompt@);
        self.next_id = id + 1;
        self.queue.push_back(Request { id, prompt: owned, max_new_tokens, eos });
        proof {
            self.requests@ = self.requests@.push(r);
            assert(self@.queue =~= before.queue.push(r));
            assert(self@.seats =~= before.seats);
            assert(self@.done =~= before.done);
            assert forall|i: int| 0 <= i < self.queue@.len() implies is_request(self.requests@, (#[trigger] self.queue@[i])@) by {
                if i < old(self).queue@.len() {
                    assert(self.queue@[i] == old(self).queue@[i]);
                    assert(is_request(old(self).requests@, old(self).queue@[i]@));
                }
            }
            assert forall|b: int| 0 <= b < self.active@.len() && (#[trigger] self.active@[b]) is Some implies is_seat(
                self.requests@,
                self.active@[b].unwrap()@,
            ) by {
                assert(is_seat(old(self).requests@, old(self).active@[b].unwrap()@));
            }
            assert forall|other: u64| #[trigger] times(self@, other) <= 1 by {
                times_queued_push(before.queue, r, other);
                assert(times(before, other) <= 1);
                if other == id {
                    assert forall|b: int| 0 <= b < before.seats.len() implies times_seated(#[trigger] before.seats[b], id) == 0 by {
                        assert(old(self).active@[b] is Some ==> is_seat(old(self).requests@, old(self).active@[b].unwrap()@));
                    }
                    assert forall|i: int| 0 <= i < before.queue.len() implies (#[trigger] before.queue[i]).id != id by {
                        assert(is_request(old(self).requests@, old(self).queue@[i]@));
                    }
                    assert forall|i: int| 0 <= i < before.done.len() implies (#[trigger] before.done[i]).id != id by {
                        assert(old(self).completed@[i].id < old(self).next_id);
                    }
                    unknown_stands_nowhere(before, id);
                }
            }
        }
        id
    }

    /// The number of requests in the queue.
    pub fn pending(&self) -> (n: usize)
        ensures
            n == self@.queue.len(),
    {
        self.queue.len()
    }

    /// The number of slots in use.
    pub fn active_count(&self) -> (n: usize)
        ensures
            n == taken(self@.seats),
            n <= self.active@.len(),
    {
        let mut n: usize = 0;
        let mut b: usize = 0;
        let len: usize = self.active.len();
        assert(self@.seats.take(0) =~= Seq::<Option<Seat>>::empty());
        while b < len
            invariant
                len == self.active@.len(),
                b <= len,
                n <= b,
                n == taken(self@.seats.take(b as int)),
            decreases len - b,
        {
            assert(self@.seats.take(b + 1).drop_last() =~= self@.seats.take(b as int));
            if self.active[b].is_some() {
                n = n + 1;
            }
            b = b + 1;
        }
        assert(self@.seats.take(len as int) =~= self@.seats);
        n
    }

    /// Whether requests wait or slots are in use.
    pub fn is_running(&self) -> (r: bool)
        ensures
            r == (self@.queue.len() > 0 || taken(self@.seats) > 0),
    {
        self.pending() > 0 || self.active_count() > 0
    }

    /// The number of steps so far.
    pub fn iterations(&self) -> (n: usize)
        ensures
            n == self.iterations,
    {
        self.iterations
    }

    /// Takes out the sequences that are finished, in the order in which they finished.
    pub fn pop_completed(&mut self) -> (r: Vec<CompletedSequence>)
        requires
            old(self).wf(),
        ensures
            final(self).wf(),
            r == old(self).completed,
            final(self).completed@.len() == 0,
            final(self)@ == (BatchModel { done: Seq::empty(), ..old(self)@ }),
            final(self).capacity == old(self).capacity,
            final(self).active == old(self).active,
            final(self).queue == old(self).queue,
            final(self).next_id == old(self).next_id,
            final(self).iterations == old(self).iterations,
            final(self).requests == old(self).requests,
    {
        let mut taken_out: Vec<CompletedSequence> = Vec::new();
        std::mem::swap(&mut taken_out, &mut self.completed);
        assert(self@ =~= (BatchModel { done: Seq::empty(), ..old(self)@ }));
        assert forall|id: u64| #[trigger] times(self@, id) <= 1 by {
            assert(times(old(self)@, id) <= 1);
        }
        taken_out
    }

    /// The first free slot.
    fn first_free_slot(&self) -> (r: Option<usize>)
        ensures
            match r {
                Some(b) => first_free(self@.seats, 0) == Some(b as int) && b < self.active@.len() && self.active@[b as int] is None,
                None => first_free(self@.seats, 0) is None,
            },
    {
        let len: usize = self.active.len();
        let mut b: usize = 0;
        while b < len
            invariant
                len == self.active@.len(),
                b <= len,
                first_free(self@.seats, 0) == first_free(self@.seats, b as int),
            decreases len - b,
        {
            if self.active[b].is_none() {
                return Some(b);
            }
            b = b + 1;
        }
        None
    }
}

/// The sequence of a request after some of its tokens.
pub open spec fn running_text(r: RequestModel, output: Seq<u32>) -> Seq<u32> {
    batch::run_prompt(r.prompt) + output
}

impl Network {
    /// A slot of the cache holds the sequence that sits in it, and its scores are those of the
    /// next token.
    pub open spec fn in_seat<F: Fn(Op, &[u32], &[u32], &[u32]) -> Vec<u32>, P: Fn(&[u32]) -> u32>(
        self,
        unit: F,
        pick: P,
        cache: KvCache,
        b: int,
        r: RequestModel,
        a: ActiveSeq,
    ) -> bool {
        &&& cache.seq_lens@[b] == batch::run_prompt(r.prompt).len() + a.output@.len()
        &&& self.holds(unit, cache, b, running_text(r, a.output@))
        &&& a.logits@ == self.scores_after(unit, running_text(r, a.output@))
        &&& a.logits@.len() == self.scores()
        &&& self.follows(unit, pick, batch::run_prompt(r.prompt), a.output@)
    }

    /// A slot is empty, or holds the sequence that sits in it.
    pub open spec fn slot_serves<F: Fn(Op, &[u32], &[u32], &[u32]) -> Vec<u32>, P: Fn(&[u32]) -> u32>(
        self,
        unit: F,
        pick: P,
        cache: KvCache,
        b: int,
        requests: Seq<RequestModel>,
        active: Option<ActiveSeq>,
    ) -> bool {
        match active {
            None => cache.seq_lens@[b] == 0,
            Some(a) => self.in_seat(unit, pick, cache, b, requests[a.id as int], a),
        }
    }

    /// Each slot of the cache holds what sits in it.
    pub open spec fn serving<F: Fn(Op, &[u32], &[u32], &[u32]) -> Vec<u32>, P: Fn(&[u32]) -> u32>(
        self,
        unit: F,
        pick: P,
        cache: KvCache,
        batch: ContinuousBatch,
    ) -> bool {
        &&& self.cache_fits(cache)
        &&& batch.capacity <= cache.batch
        &&& forall|b: int| 0 <= b < batch.capacity ==> self.slot_serves(unit, pick, cache, b, batch.requests@, #[trigger] batch.active@[b])
    }

    /// The tokens of a finished sequence follow its prompt and stop where the request says.
    pub open spec fn answered<F: Fn(Op, &[u32], &[u32], &[u32]) -> Vec<u32>, P: Fn(&[u32]) -> u32>(
        self,
        unit: F,
        pick: P,
        requests: Seq<RequestModel>,
        c: CompletedModel,
    ) -> bool {
        &&& c.id < requests.len()
        &&& self.follows(unit, pick, batch::run_prompt(requests[c.id as int].prompt), c.tokens)
        &&& batch::stops(c.tokens, requests[c.id as int].max_new_tokens as int, requests[c.id as int].eos)
    }

    /// All finished sequences are answers to their requests.
    pub open spec fn all_answered<F: Fn(Op, &[u32], &[u32], &[u32]) -> Vec<u32>, P: Fn(&[u32]) -> u32>(
        self,
        unit: F,
        pick: P,
        batch: ContinuousBatch,
    ) -> bool {
        forall|i: int| 0 <= i < batch.completed@.len() ==> self.answered(unit, pick, batch.requests@, (#[trigger] batch.completed@[i])@)
    }

    /// The model can run a request.
    pub open spec fn hostable(self, r: RequestModel) -> bool {
        r.max_new_tokens > 0 ==> {
            &&& self.knows(batch::run_prompt(r.prompt))
            &&& self.room(batch::run_prompt(r.prompt).len() as usize)
            &&& batch::run_prompt(r.prompt).len() + r.max_new_tokens <= self.config.max_seq_len + 1
        }
    }

    /// The model can run all requests.
    pub open spec fn hosts(self, requests: Seq<RequestModel>) -> bool {
        &&& self.fits()
        &&& self.scores() == self.config.vocab_size
        &&& self.room(1)
        &&& 0 < self.config.max_seq_len
        &&& forall|i: int| 0 <= i < requests.len() ==> self.hostable(#[trigger] requests[i])
    }

    /// Tokens were picked, for each slot in use, from the scores of its next token.
    pub open spec fn picked_for<F: Fn(Op, &[u32], &[u32], &[u32]) -> Vec<u32>, P: Fn(&[u32]) -> u32>(
        self,
        unit: F,
        pick: P,
        requests: Seq<RequestModel>,
        seats: Seq<Option<Seat>>,
        picked: Seq<u32>,
        n: int,
    ) -> bool {
        &&& picked.len() == n
        &&& forall|b: int| 0 <= b < n && (#[trigger] seats[b]) is Some ==> {
            let seat = seats[b].unwrap();
            generate::picks(pick, self.scores_after(unit, running_text(requests[seat.id as int], seat.output)), picked[b])
        }
    }

    /// Each step of a run was made because requests waited or slots were in use, and its tokens
    /// were picked from the scores of the sequences in the slots.
    pub open spec fn steps_picked<F: Fn(Op, &[u32], &[u32], &[u32]) -> Vec<u32>, P: Fn(&[u32]) -> u32>(
        self,
        unit: F,
        pick: P,
        requests: Seq<RequestModel>,
        m: BatchModel,
        picks: Seq<Seq<u32>>,
    ) -> bool {
        forall|i: int| 0 <= i < picks.len() ==> self.step_picked(unit, pick, requests, run_by(m, picks.take(i)).0, #[trigger] picks[i])
    }

    /// A step was made because requests waited or slots were in use, and these tokens were picked
    /// in it.
    pub open spec fn step_picked<F: Fn(Op, &[u32], &[u32], &[u32]) -> Vec<u32>, P: Fn(&[u32]) -> u32>(
        self,
        unit: F,
        pick: P,
        requests: Seq<RequestModel>,
        before: BatchModel,
        picked: Seq<u32>,
    ) -> bool {
        busy(before) && self.picked_for(unit, pick, requests, seated(before).seats, picked, before.seats.len() as int)
    }

    /// A slot serves as before if nothing that is kept for it has changed.
    proof fn still_serves<F: Fn(Op, &[u32], &[u32], &[u32]) -> Vec<u32>, P: Fn(&[u32]) -> u32>(
        self,
        unit: F,
        pick: P,
        before: KvCache,
        after: KvCache,
        b: int,
        requests: Seq<RequestModel>,
        active: Option<ActiveSeq>,
    )
        requires
            self.slot_serves(unit, pick, before, b, requests, active),
            self.slot_kept(before, after, b),
            after.seq_lens@[b] == before.seq_lens@[b],
        ensures
            self.slot_serves(unit, pick, after, b, requests, active),
    {
        if let Some(a) = active {
            self.kept_holds(unit, before, after, b, running_text(requests[a.id as int], a.output@));
        }
    }
}

impl Model {
    /// Runs tokens in a slot and gives the scores of the token after the last.
    fn run_slot<F: Fn(Op, &[u32], &[u32], &[u32]) -> Vec<u32>>(&mut self, tokens: &[u32], slot: usize, Ghost(past): Ghost<Seq<u32>>, unit: &F) -> (row: Vec<u32>)
        requires
            unit::lawful(*unit),
            old(self).ready(slot as int, tokens@),
            old(self).cache is Some,
            old(self).network().scores() == old(self).config.vocab_size,
            tokens@.len() > 0,
            past.len() == old(self).end(slot as int),
            old(self).network().holds(*unit, old(self).cache.unwrap(), slot as int, past),
        ensures
            old(self).stepped(*unit, *final(self), slot as int, tokens@),
            final(self).cache is Some,
            row@.len() == old(self).config.vocab_size,
            final(self).network().holds(
                *unit,
                final(self).cache.unwrap(),
                slot as int,
                past + tokens@,
            ),
            row@ == old(self).network().scores_after(*unit, past + tokens@),
    {
        let ghost net = self.network();
        let ghost first = *self;
        let n: usize = tokens.len();
        assert(n == tokens@.len());
        let logits: Tensor = self.forward_slot(tokens, slot, unit);
        proof {
            let longer = past + tokens@;
            shape::product_two(logits@.shape[0], logits@.shape[1]);
            assert((n - 1 + 1) * self.config.vocab_size <= logits@.shape[0] * logits@.shape[1]) by (nonlinear_arith)
                requires
                    n == logits@.shape[0],
                    self.config.vocab_size == logits@.shape[1],
            ;
            net.run_extends(*unit, first.cache.unwrap(), self.cache.unwrap(), slot as int, past, tokens@);
            assert(first.last_row(*unit, slot as int, tokens@, self.cache, n - 1) == net.state(
                *unit,
                longer,
                net.layers.len() as int,
                longer.len() - 1,
            ));
        }
        logits.chunk_lanes(n - 1, self.config.vocab_size)
    }

    /// Seats requests from the queue in free slots and runs their prompts. Gives the number of
    /// requests that were seated.
    pub fn schedule_pending<F: Fn(Op, &[u32], &[u32], &[u32]) -> Vec<u32>, P: Fn(&[u32]) -> u32>(
        &mut self,
        batch: &mut ContinuousBatch,
        pick: &P,
        unit: &F,
    ) -> (scheduled: usize)
        requires
            unit::lawful(*unit),
            old(batch).wf(),
            old(self).cache is Some,
            old(self).network().hosts(old(batch).requests@),
            old(self).network().serving(*unit, *pick, old(self).cache.unwrap(), *old(batch)),
            old(self).network().all_answered(*unit, *pick, *old(batch)),
        ensures
            final(self).network() == old(self).network(),
            final(self).layers == old(self).layers,
            final(self).bit_layers == old(self).bit_layers,
            final(self).cache is Some,
            final(self).cache.unwrap().batch == old(self).cache.unwrap().batch,
            final(batch).wf(),
            final(batch).capacity == old(batch).capacity,
            final(batch).next_id == old(batch).next_id,
            final(batch).requests == old(batch).requests,
            final(batch).iterations == old(batch).iterations,
            final(self).network().serving(*unit, *pick, final(self).cache.unwrap(), *final(batch)),
            final(self).network().all_answered(*unit, *pick, *final(batch)),
            final(batch)@ == seated(old(batch)@),
            scheduled + taken(old(batch)@.seats) == taken(final(batch)@.seats),
    {
        let ghost net = self.network();
        let ghost requests = batch.requests@;
        let mut scheduled: usize = 0;
        loop
            invariant
                unit::lawful(*unit),
                batch.wf(),
                net == self.network(),
                net == old(self).network(),
                self.layers == old(self).layers,
                self.bit_layers == old(self).bit_layers,
                self.cache is Some,
                self.cache.unwrap().batch == old(self).cache.unwrap().batch,
                batch.capacity == old(batch).capacity,
                batch.next_id == old(batch).next_id,
                batch.requests == old(batch).requests,
                batch.iterations == old(batch).iterations,
                requests == batch.requests@,
                net.hosts(requests),
                net.serving(*unit, *pick, self.cache.unwrap(), *batch),
                net.all_answered(*unit, *pick, *batch),
                seated(batch@) == seated(old(batch)@),
                scheduled + taken(old(batch)@.seats) == taken(batch@.seats),
            ensures
                seated(batch@) == batch@,
            decreases batch.queue@.len(),
        {
            let free: Option<usize> = batch.first_free_slot();
            let slot: usize = match free {
                Some(b) => b,
                None => {
                    break ;
                },
            };
            let ghost before = *batch;
            let ghost held = batch@;
            let req: Request = match batch.queue.pop_front() {
                Some(r) => r,
                None => {
                    assert(batch@ =~= held);
                    break ;
                },
            };
            proof {
                assert(req == before.queue@[0]);
                assert(is_request(requests, before.queue@[0]@));
                assert(batch@.queue =~= held.queue.skip(1));
                assert forall|i: int| 0 <= i < batch.queue@.len() implies is_request(requests, (#[trigger] batch.queue@[i])@) by {
                    assert(batch.queue@[i] == before.queue@[i + 1]);
                }
            }
            if req.max_new_tokens == 0 {
                let ghost c = CompletedModel { id: req.id, tokens: Seq::empty() };
                batch.completed.push(CompletedSequence { id: req.id, tokens: Vec::new() });
                proof {
                    assert(batch@.done =~= held.done.push(c));
                    assert(batch@.seats =~= held.seats);
                    assert(batch@ =~= seated_one(held, slot as int));
                    assert forall|id: u64| #[trigger] times(batch@, id) <= 1 by {
                        assert(times(held, id) <= 1);
                        seated_one_times(held, slot as int, id);
                    }
                    assert(net.answered(*unit, *pick, requests, c));
                    assert forall|i: int| 0 <= i < batch.completed@.len() implies net.answered(
                        *unit,
                        *pick,
                        requests,
                        (#[trigger] batch.completed@[i])@,
                    ) by {
                        if i < before.completed@.len() {
                            assert(batch.completed@[i] == before.completed@[i]);
                        }
                    }
                    assert forall|b: int| 0 <= b < batch.capacity implies net.slot_serves(
                        *unit,
                        *pick,
                        self.cache.unwrap(),
                        b,
                        requests,
                        #[trigger] batch.active@[b],
                    ) by {
                        assert(batch.active@[b] == before.active@[b]);
                    }
                }
            } else {
                let ghost first = *self;
                let ghost run = batch::run_prompt(req.prompt@);
                let dummy: Vec<u32> = vec![0u32];
                proof {
                    assert(dummy@ =~= seq![0u32]);
                    assert(net.hostable(requests[req.id as int]));
                    assert(net.slot_serves(*unit, *pick, self.cache.unwrap(), slot as int, requests, batch.active@[slot as int]));
                    net.nothing_holds(*unit, self.cache.unwrap(), slot as int);
                }
                let logits: Vec<u32> = if req.prompt.len() == 0 {
                    self.run_slot(dummy.as_slice(), slot, Ghost(Seq::empty()), unit)
                } else {
                    self.run_slot(req.prompt.as_slice(), slot, Ghost(Seq::empty()), unit)
                };
                let seq: ActiveSeq = ActiveSeq {
                    id: req.id,
                    max_new_tokens: req.max_new_tokens,
                    eos: req.eos,
                    output: Vec::new(),
                    logits,
                };
                let ghost placed = seq;
                batch.active[slot] = Some(seq);
                proof {
                    let r = requests[req.id as int];
                    let past = batch::run_prompt(r.prompt);
                    assert(Seq::<u32>::empty() + run =~= past);
                    assert(running_text(r, placed.output@) =~= past);
                    assert(net.in_seat(*unit, *pick, self.cache.unwrap(), slot as int, r, placed));
                    assert(batch@.seats =~= held.seats.update(slot as int, Some(placed@)));
                    assert(placed@ == (Seat { id: r.id, max_new_tokens: r.max_new_tokens, eos: r.eos, output: Seq::empty() }));
                    assert(batch@.done =~= held.done);
                    assert(batch@ =~= seated_one(held, slot as int));
                    assert forall|id: u64| #[trigger] times(batch@, id) <= 1 by {
                        assert(times(held, id) <= 1);
                        seated_one_times(held, slot as int, id);
                    }
                    taken_update(held.seats, slot as int, Some(placed@));
                    taken_bound(batch@.seats);
                    assert forall|b: int| 0 <= b < batch.capacity implies net.slot_serves(
                        *unit,
                        *pick,
                        self.cache.unwrap(),
                        b,
                        requests,
                        #[trigger] batch.active@[b],
                    ) by {
                        if b != slot {
                            assert(batch.active@[b] == before.active@[b]);
                            assert(net.slot_kept(first.cache.unwrap(), self.cache.unwrap(), b));
                            net.still_serves(*unit, *pick, first.cache.unwrap(), self.cache.unwrap(), b, requests, batch.active@[b]);
                        }
                    }
                    assert forall|b: int| 0 <= b < batch.active@.len() && (#[trigger] batch.active@[b]) is Some implies is_seat(
                        requests,
                        batch.active@[b].unwrap()@,
                    ) by {
                        if b != slot {
                            assert(batch.active@[b] == before.active@[b]);
                        }
                    }
                }
                scheduled = scheduled + 1;
            }
        }
        scheduled
    }

    /// Picks a token for a slot in use. A sequence that goes on runs the token; one that is done
    /// leaves its slot empty.
    fn serve_slot<F: Fn(Op, &[u32], &[u32], &[u32]) -> Vec<u32>, P: Fn(&[u32]) -> u32>(
        &mut self,
        batch: &mut ContinuousBatch,
        b: usize,
        pick: &P,
        unit: &F,
    ) -> (picked: u32)
        requires
            unit::lawful(*unit),
            old(batch).wf(),
            b < old(batch).capacity,
            old(self).cache is Some,
            old(self).network().hosts(old(batch).requests@),
            old(self).network().serving(*unit, *pick, old(self).cache.unwrap(), *old(batch)),
            old(self).network().all_answered(*unit, *pick, *old(batch)),
            generate::picks_known(*pick, old(self).network()),
        ensures
            final(self).network() == old(self).network(),
            final(self).layers == old(self).layers,
            final(self).bit_layers == old(self).bit_layers,
            final(self).cache is Some,
            final(self).cache.unwrap().batch == old(self).cache.unwrap().batch,
            final(batch).wf(),
            final(batch).capacity == old(batch).capacity,
            final(batch).next_id == old(batch).next_id,
            final(batch).requests == old(batch).requests,
            final(batch).iterations == old(batch).iterations,
            final(self).network().serving(*unit, *pick, final(self).cache.unwrap(), *final(batch)),
            final(self).network().all_answered(*unit, *pick, *final(batch)),
            final(batch)@ == served_one(old(batch)@, b as int, picked),
            old(batch)@.seats[b as int] matches Some(seat) ==> generate::picks(
                *pick,
                old(self).network().scores_after(*unit, running_text(old(batch).requests@[seat.id as int], seat.output)),
                picked,
            ),
    {
        let ghost net = self.network();
        let ghost requests = batch.requests@;
        let ghost before = *batch;
        let ghost held = batch@;
        let ghost first = *self;
        let mut current: Option<ActiveSeq> = None;
        std::mem::swap(&mut current, &mut batch.active[b]);
        let mut seq: ActiveSeq = match current {
            Some(a) => a,
            None => {
                assert(batch.active@ =~= before.active@);
                assert(batch@ =~= held);
                assert forall|id: u64| #[trigger] times(batch@, id) <= 1 by {
                    assert(times(held, id) <= 1);
                }
                return 0;
            },
        };
        let ghost r = requests[seq.id as int];
        let ghost output = seq.output@;
        proof {
            assert(before.active@[b as int] == Some(seq));
            assert(is_seat(requests, seq@));
            assert(net.hostable(r));
            assert(net.slot_serves(*unit, *pick, self.cache.unwrap(), b as int, requests, before.active@[b as int]));
        }
        let token: u32 = pick(seq.logits.as_slice());
        proof {
            assert(generate::picks(*pick, seq.logits@, token));
            net.follows_more(*unit, *pick, batch::run_prompt(r.prompt), output, token);
            assert(token < net.embedding.vocab_size);
        }
        seq.output.push(token);
        let last: bool = match seq.eos {
            Some(e) => token == e,
            None => false,
        };
        if seq.output.len() >= seq.max_new_tokens || last {
            let ghost c = CompletedModel { id: seq.id, tokens: seq.output@ };
            batch.completed.push(CompletedSequence { id: seq.id, tokens: seq.output });
            let taken_cache: Option<KvCache> = self.cache.take();
            match taken_cache {
                Some(mut cache) => {
                    cache.clear_slot(b);
                    self.cache = Some(cache);
                },
                None => {},
            }
            proof {
                let after = self.cache.unwrap();
                assert(self.network() == net);
                assert(net.cache_fits(after));
                assert(batch@.seats =~= held.seats.update(b as int, None));
                assert(batch@.done =~= held.done.push(c));
                assert(batch@.queue =~= held.queue);
                assert(batch@ =~= served_one(held, b as int, token));
                assert forall|id: u64| #[trigger] times(batch@, id) <= 1 by {
                    assert(times(held, id) <= 1);
                    served_one_times(held, b as int, token, id);
                }
                assert(net.answered(*unit, *pick, requests, c));
                assert forall|i: int| 0 <= i < batch.completed@.len() implies net.answered(
                    *unit,
                    *pick,
                    requests,
                    (#[trigger] batch.completed@[i])@,
                ) by {
                    if i < before.completed@.len() {
                        assert(batch.completed@[i] == before.completed@[i]);
                    }
                }
                assert forall|j: int| 0 <= j < batch.capacity implies net.slot_serves(
                    *unit,
                    *pick,
                    after,
                    j,
                    requests,
                    #[trigger] batch.active@[j],
                ) by {
                    if j != b {
                        assert(batch.active@[j] == before.active@[j]);
                        net.still_serves(*unit, *pick, first.cache.unwrap(), after, j, requests, batch.active@[j]);
                    }
                }
            }
        } else {
            let one: Vec<u32> = vec![token];
            assert(one@ =~= seq![token]);
            let logits: Vec<u32> = self.run_slot(one.as_slice(), b, Ghost(running_text(r, output)), unit);
            seq.logits = logits;
            let ghost placed = seq;
            batch.active[b] = Some(seq);
            proof {
                let after = self.cache.unwrap();
                assert(running_text(r, output.push(token)) =~= running_text(r, output) + seq![token]);
                assert(net.in_seat(*unit, *pick, after, b as int, r, placed));
                assert(batch@.seats =~= held.seats.update(b as int, Some(placed@)));
                assert(placed@ == (Seat { output: output.push(token), ..held.seats[b as int].unwrap() }));
                assert(batch@.done =~= held.done);
                assert(batch@.queue =~= held.queue);
                assert(batch@ =~= served_one(held, b as int, token));
                assert forall|id: u64| #[trigger] times(batch@, id) <= 1 by {
                    assert(times(held, id) <= 1);
                    served_one_times(held, b as int, token, id);
                }
                assert forall|j: int| 0 <= j < batch.capacity implies net.slot_serves(
                    *unit,
                    *pick,
                    after,
                    j,
                    requests,
                    #[trigger] batch.active@[j],
                ) by {
                    if j != b {
                        assert(batch.active@[j] == before.active@[j]);
                        assert(net.slot_kept(first.cache.unwrap(), after, j));
                        net.still_serves(*unit, *pick, first.cache.unwrap(), after, j, requests, batch.active@[j]);
                    }
                }
                assert forall|j: int| 0 <= j < batch.active@.len() && (#[trigger] batch.active@[j]) is Some implies is_seat(
                    requests,
                    batch.active@[j].unwrap()@,
                ) by {
                    if j != b {
                        assert(batch.active@[j] == before.active@[j]);
                    }
                }
            }
        }
        token
    }

    /// The cache has the slots of the batch and serves them, or the batch has no slot in use and
    /// a cache for it can be made.
    pub open spec fn attends<F: Fn(Op, &[u32], &[u32], &[u32]) -> Vec<u32>, P: Fn(&[u32]) -> u32>(
        self,
        unit: F,
        pick: P,
        batch: ContinuousBatch,
    ) -> bool {
        let net = self.network();
        &&& batch.wf()
        &&& net.hosts(batch.requests@)
        &&& net.all_answered(unit, pick, batch)
        &&& generate::picks_known(pick, net)
        &&& self.config.num_layers == self.live().len()
        &&& self.config.num_heads > 0
        &&& self.cache_storable(batch.capacity)
        &&& batch.capacity * self.config.kv_heads() * self.config.max_seq_len <= usize::MAX
        &&& self.cache matches Some(c) ==> net.cache_fits(c)
        &&& if self.cache is Some && self.cache.unwrap().batch >= batch.capacity {
            net.serving(unit, pick, self.cache.unwrap(), batch)
        } else {
            taken(batch@.seats) == 0
        }
    }

    /// One step of a batch: seats requests in free slots, picks a token for each slot in use,
    /// runs it where the sequence goes on, and frees the slots of those that are done. Gives the
    /// number of requests that were seated.
    pub fn continuous_step<F: Fn(Op, &[u32], &[u32], &[u32]) -> Vec<u32>, P: Fn(&[u32]) -> u32>(
        &mut self,
        batch: &mut ContinuousBatch,
        pick: &P,
        unit: &F,
    ) -> (scheduled: usize)
        requires
            unit::lawful(*unit),
            old(self).attends(*unit, *pick, *old(batch)),
            old(batch).iterations < usize::MAX,
        ensures
            final(self).network() == old(self).network(),
            final(self).layers == old(self).layers,
            final(self).bit_layers == old(self).bit_layers,
            final(self).attends(*unit, *pick, *final(batch)),
            final(self).cache is Some,
            final(self).network().serving(*unit, *pick, final(self).cache.unwrap(), *final(batch)),
            final(batch).capacity == old(batch).capacity,
            final(batch).next_id == old(batch).next_id,
            final(batch).requests == old(batch).requests,
            final(batch).iterations == old(batch).iterations + 1,
            exists|picked: Seq<u32>|
                final(batch)@ == served(seated(old(batch)@), picked, old(batch).capacity as int)
                    && #[trigger] final(self).network().picked_for(
                    *unit,
                    *pick,
                    old(batch).requests@,
                    seated(old(batch)@).seats,
                    picked,
                    old(batch).capacity as int,
                ),
            scheduled + taken(old(batch)@.seats) == taken(seated(old(batch)@).seats),
            total(final(batch)@) == total(old(batch)@),
    {
        let ghost net = self.network();
        let ghost requests = batch.requests@;
        let small: bool = match &self.cache {
            Some(c) => c.batch < batch.capacity,
            None => true,
        };
        if small {
            self.reserve_cache_batch(batch.capacity);
            proof {
                assert(self.network() == net);
                let c = self.cache.unwrap();
                assert(net.cache_fits(c));
                assert forall|b: int| 0 <= b < batch.capacity implies net.slot_serves(*unit, *pick, c, b, requests, #[trigger] batch.active@[b]) by {
                    none_taken(batch@.seats, b);
                    assert(batch@.seats[b] is None);
                    assert(c.seq_lens@[b] == 0);
                }
            }
        }
        let scheduled: usize = self.schedule_pending(batch, pick, unit);
        let ghost start = batch@;
        let ghost mut picked: Seq<u32> = Seq::empty();
        let count: usize = batch.capacity;
        let mut b: usize = 0;
        while b < count
            invariant
                unit::lawful(*unit),
                generate::picks_known(*pick, net),
                count == batch.capacity,
                count == old(batch).capacity,
                start.seats.len() == count,
                net == self.network(),
                self.layers == old(self).layers,
                self.bit_layers == old(self).bit_layers,
                batch.wf(),
                batch.requests@ == requests,
                batch.requests == old(batch).requests,
                batch.next_id == old(batch).next_id,
                batch.iterations == old(batch).iterations,
                self.cache is Some,
                self.cache.unwrap().batch >= count,
                net.hosts(requests),
                net.serving(*unit, *pick, self.cache.unwrap(), *batch),
                net.all_answered(*unit, *pick, *batch),
                b <= count,
                batch@ == served(start, picked, b as int),
                net.picked_for(*unit, *pick, requests, start.seats, picked, b as int),
            decreases count - b,
        {
            let ghost mid = batch@;
            let ghost earlier = picked;
            let token: u32 = self.serve_slot(batch, b, pick, unit);
            proof {
                served_keeps(start, earlier, b as int);
                picked = earlier.push(token);
                served_by_prefix(start, earlier, picked, b as int);
                assert(picked[b as int] == token);
                assert forall|j: int| 0 <= j < b + 1 && (#[trigger] start.seats[j]) is Some implies {
                    let seat = start.seats[j].unwrap();
                    generate::picks(*pick, net.scores_after(*unit, running_text(requests[seat.id as int], seat.output)), picked[j])
                } by {
                    if j < b {
                        assert(picked[j] == earlier[j]);
                    } else {
                        assert(mid.seats[j] == start.seats[j]);
                    }
                }
            }
            b = b + 1;
        }
        let ghost last = *batch;
        batch.iterations = batch.iterations + 1;
        proof {
            assert(batch@ == last@);
            served_keeps(start, picked, count as int);
            seated_keeps(old(batch)@);
            assert(batch@ =~= served(start, picked, count as int));
            assert forall|j: int| 0 <= j < batch.capacity implies net.slot_serves(
                *unit,
                *pick,
                self.cache.unwrap(),
                j,
                requests,
                #[trigger] batch.active@[j],
            ) by {}
        }
        scheduled
    }

    /// Steps until no request waits and no slot is in use, or `max_iterations` steps have been
    /// made, and gives the sequences that finished, in the order in which they did.
    pub fn continuous_run<F: Fn(Op, &[u32], &[u32], &[u32]) -> Vec<u32>, P: Fn(&[u32]) -> u32>(
        &mut self,
        batch: &mut ContinuousBatch,
        pick: &P,
        unit: &F,
        max_iterations: usize,
    ) -> (out: Vec<CompletedSequence>)
        requires
            unit::lawful(*unit),
            old(self).attends(*unit, *pick, *old(batch)),
            taken(old(batch)@.seats) == 0,
            old(batch).iterations + max_iterations <= usize::MAX,
        ensures
            final(self).network() == old(self).network(),
            final(self).layers == old(self).layers,
            final(self).bit_layers == old(self).bit_layers,
            final(self).attends(*unit, *pick, *final(batch)),
            final(self).cache is Some,
            final(self).network().serving(*unit, *pick, final(self).cache.unwrap(), *final(batch)),
            final(batch).capacity == old(batch).capacity,
            final(batch).next_id == old(batch).next_id,
            final(batch).requests == old(batch).requests,
            final(batch).iterations <= old(batch).iterations + max_iterations,
            final(batch).iterations == old(batch).iterations + max_iterations || (final(batch)@.queue.len() == 0 && taken(
                final(batch)@.seats,
            ) == 0),
            forall|i: int| 0 <= i < out@.len() ==> final(self).network().answered(*unit, *pick, old(batch).requests@, (#[trigger] out@[i])@),
            final(batch).iterations > old(batch).iterations ==> final(batch).completed@.len() == 0,
            max_iterations >= load(old(batch)@) ==> final(batch)@.queue.len() == 0 && taken(final(batch)@.seats) == 0,
            exists|picks: Seq<Seq<u32>>| #[trigger]
                old(self).network().steps_picked(*unit, *pick, old(batch).requests@, old(batch)@, picks) && picks.len() == final(batch).iterations
                    - old(batch).iterations && run_by(old(batch)@, picks) == (final(batch)@, completed(out@)),
            forall|id: u64| #[trigger] times_done(completed(out@), id) + times(final(batch)@, id) == times(old(batch)@, id),
            out@.len() + total(final(batch)@) == total(old(batch)@),
    {
        let ghost net = self.network();
        let ghost requests = batch.requests@;
        self.reserve_cache_batch(batch.capacity);
        proof {
            assert(self.network() == net);
            let c = self.cache.unwrap();
            assert(net.cache_fits(c));
            assert forall|b: int| 0 <= b < batch.capacity implies net.slot_serves(*unit, *pick, c, b, requests, #[trigger] batch.active@[b]) by {
                none_taken(batch@.seats, b);
                assert(batch@.seats[b] is None);
                assert(c.seq_lens@[b] == 0);
            }
        }
        let mut out: Vec<CompletedSequence> = Vec::new();
        let mut iters: usize = 0;
        let mut running: bool = batch.is_running();
        let ghost mut picks: Seq<Seq<u32>> = Seq::empty();
        proof {
            assert(completed(out@) =~= Seq::<CompletedModel>::empty());
            assert forall|b: int| 0 <= b < batch@.seats.len() implies #[trigger] unfinished_seat(batch@.seats[b]) by {
                none_taken(batch@.seats, b);
            }
        }
        while running && iters < max_iterations
            invariant
                unit::lawful(*unit),
                net == self.network(),
                self.layers == old(self).layers,
                self.bit_layers == old(self).bit_layers,
                self.attends(*unit, *pick, *batch),
                self.cache is Some,
                net.serving(*unit, *pick, self.cache.unwrap(), *batch),
                batch.capacity == old(batch).capacity,
                batch.next_id == old(batch).next_id,
                batch.requests == old(batch).requests,
                requests == batch.requests@,
                iters <= max_iterations,
                old(batch).iterations + max_iterations <= usize::MAX,
                batch.iterations == old(batch).iterations + iters,
                running == (batch@.queue.len() > 0 || taken(batch@.seats) > 0),
                iters > 0 ==> batch.completed@.len() == 0,
                unfinished_seats(batch@.seats),
                load(batch@) + iters <= load(old(batch)@),
                forall|i: int| 0 <= i < out@.len() ==> net.answered(*unit, *pick, requests, (#[trigger] out@[i])@),
                picks.len() == iters,
                run_by(old(batch)@, picks) == (batch@, completed(out@)),
                net.steps_picked(*unit, *pick, requests, old(batch)@, picks),
            decreases max_iterations - iters,
        {
            let ghost waiting = batch@;
            self.continuous_step(batch, pick, unit);
            let ghost stepped = *batch;
            let ghost picked = choose|picked: Seq<u32>|
                stepped@ == served(seated(waiting), picked, batch.capacity as int) && #[trigger] net.picked_for(
                    *unit,
                    *pick,
                    requests,
                    seated(waiting).seats,
                    picked,
                    batch.capacity as int,
                );
            proof {
                step_makes_progress(waiting, picked);
            }
            let mut finished: Vec<CompletedSequence> = batch.pop_completed();
            let ghost earlier = out@;
            proof {
                assert forall|i: int| 0 <= i < finished@.len() implies net.answered(*unit, *pick, requests, (#[trigger] finished@[i])@) by {
                    assert(finished@[i] == stepped.completed@[i]);
                }
                assert forall|b: int| 0 <= b < batch.capacity implies net.slot_serves(
                    *unit,
                    *pick,
                    self.cache.unwrap(),
                    b,
                    requests,
                    #[trigger] batch.active@[b],
                ) by {
                    assert(batch.active@[b] == stepped.active@[b]);
                }
                assert(stepped@.done.len() == finished@.len());
            }
            out.append(&mut finished);
            proof {
                assert forall|i: int| 0 <= i < out@.len() implies net.answered(*unit, *pick, requests, (#[trigger] out@[i])@) by {
                    if i < earlier.len() {
                        assert(out@[i] == earlier[i]);
                    }
                }
                let longer = picks.push(picked);
                assert(longer.drop_last() =~= picks);
                assert(completed(out@) =~= completed(earlier) + stepped@.done);
                assert forall|i: int| 0 <= i < longer.len() implies net.step_picked(
                    *unit,
                    *pick,
                    requests,
                    run_by(old(batch)@, longer.take(i)).0,
                    #[trigger] longer[i],
                ) by {
                    if i < picks.len() {
                        assert(longer.take(i) =~= picks.take(i));
                        assert(longer[i] == picks[i]);
                    } else {
                        assert(longer.take(i) =~= picks);
                    }
                }
                picks = longer;
            }
            running = batch.is_running();
            iters = iters + 1;
        }
        proof {
            if running {
                seats_load_bound(batch@.seats);
            }
            run_keeps(old(batch)@, picks, 0);
            assert forall|id: u64| #[trigger] times_done(completed(out@), id) + times(batch@, id) == times(old(batch)@, id) by {
                run_keeps(old(batch)@, picks, id);
            }
        }
        out
    }
}

/// Where no slot is in use, each is free.
pub proof fn none_taken(seats: Seq<Option<Seat>>, b: int)
    requires
        taken(seats) == 0,
        0 <= b < seats.len(),
    ensures
        seats[b] is None,
    decreases seats.len(),
{
    if b < seats.len() - 1 {
        none_taken(seats.drop_last(), b);
    }
}

/// The first slots depend on the first tokens alone.
pub proof fn served_by_prefix(m: BatchModel, a: Seq<u32>, b: Seq<u32>, n: int)
    requires
        0 <= n <= a.len(),
        n <= b.len(),
        forall|j: int| 0 <= j < n ==> #[trigger] a[j] == b[j],
    ensures
        served(m, a, n) == served(m, b, n),
    decreases n,
{
    if n > 0 {
        served_by_prefix(m, a, b, n - 1);
        assert(a[n - 1] == b[n - 1]);
    }
}

} // verus!
