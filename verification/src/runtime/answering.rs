//! Answers to prompts, one by one and side by side.
use super::batch;
use super::continuous;
use super::continuous::{BatchModel, CompletedModel, RequestModel, Seat};
use super::generate;
use super::model::Model;
use super::network::Network;
use super::sampler;
use super::speculative;
use super::unit::Op;
use vstd::prelude::*;

verus! {

/// An answer goes on until the token that ends it, or until the limit: the ending token stands
/// nowhere but at the end, and an answer without it is as long as the limit.
pub proof fn answer_ends_where_it_should(out: Seq<u32>, limit: int, eos: Option<u32>, i: int)
    requires
        batch::stops(out, limit, eos),
    ensures
        out.len() <= limit,
        0 <= i < out.len() && Some(out[i]) == eos ==> i == out.len() - 1,
        (forall|j: int| 0 <= j < out.len() ==> Some(#[trigger] out[j]) != eos) ==> out.len() == limit,
        eos is None ==> out.len() == limit,
        0 < limit ==> 0 < out.len(),
{
    if 0 < out.len() {
        assert(out.last() == out[out.len() - 1]);
    }
}

/// A prompt is run as it is; an empty one is run as the first token of all.
pub proof fn prompts_are_run_as_they_are(prompt: Seq<u32>)
    ensures
        prompt.len() > 0 ==> batch::run_prompt(prompt) == prompt,
        prompt.len() == 0 ==> batch::run_prompt(prompt) == seq![0u32],
{
}

impl Network {
    /// Each token of an answer is picked from the scores that the model has for the last of the
    /// prompt and the tokens before it, after all of its layers.
    pub proof fn tokens_are_picked_from_the_last_scores<F: Fn(Op, &[u32], &[u32], &[u32]) -> Vec<u32>, P: Fn(&[u32]) -> u32>(
        self,
        unit: F,
        pick: P,
        past: Seq<u32>,
        tokens: Seq<u32>,
        j: int,
    )
        requires
            self.follows(unit, pick, past, tokens),
            0 <= j < tokens.len(),
        ensures
            ({
                let before = past + tokens.take(j);
                generate::picks(
                    pick,
                    self.logits(unit, self.state(unit, before, self.layers.len() as int, past.len() + j - 1)),
                    tokens[j],
                )
            }),
    {
        assert(generate::picks(pick, self.scores_after(unit, past + tokens.take(j)), tokens[j]));
    }

    /// A run with a draft is counted round by round: the draft proposes `k` tokens, and those that the
    /// target would have chosen itself count, up to the first that it would not. Where they end the
    /// run, no more is counted.
    pub proof fn proposals_are_counted_round_by_round<F: Fn(Op, &[u32], &[u32], &[u32]) -> Vec<u32>>(
        self,
        draft: Network,
        unit: F,
        prompt: Seq<u32>,
        k: nat,
        limit: nat,
        eos: Option<u32>,
        n: nat,
        a: nat,
    )
        requires
            ({
                let text = prompt + self.greedy_run(unit, prompt, n);
                let own = self.greedy_run(unit, text, k + 1);
                let ahead = draft.greedy_run(unit, text, k + 1);
                &&& n < limit
                &&& a <= k
                &&& forall|i: int| 0 <= i < a ==> #[trigger] own[i] == ahead[i]
                &&& a < k ==> own[a as int] != ahead[a as int]
            }),
        ensures
            ({
                let text = prompt + self.greedy_run(unit, prompt, n);
                let own = self.greedy_run(unit, text, k + 1);
                let ahead = draft.greedy_run(unit, text, k + 1);
                let c = self.counts(draft, unit, prompt, k, limit, eos, n);
                let later = self.counts(draft, unit, prompt, k, limit, eos, n + a + 1);
                let over = n + a >= limit || exists|j: int| 0 <= j < a && Some(#[trigger] own[j]) == eos;
                let last = n + a + 1 >= limit || Some(own[a as int]) == eos;
                let extra = (if a == k {
                    1nat
                } else {
                    0
                });
                let hit = (if a == k && own[k as int] == ahead[k as int] {
                    1nat
                } else {
                    0
                });
                &&& over ==> c == (a, k)
                &&& !over && last ==> c == (a + hit, k + extra)
                &&& !over && !last ==> c == (a + hit + later.0, k + extra + later.1)
            }),
            self.counts(draft, unit, prompt, k, limit, eos, limit) == (0nat, 0nat),
    {
        reveal(Network::counts);
        let text = prompt + self.greedy_run(unit, prompt, n);
        let own = self.greedy_run(unit, text, k + 1);
        let ahead = draft.greedy_run(unit, text, k + 1);
        self.greedy_run_len(unit, text, k + 1);
        draft.greedy_run_len(unit, text, k + 1);
        let x = own.take(k as int);
        let y = ahead.take(k as int);
        assert forall|i: int| 0 <= i < a implies #[trigger] x[i] == y[i] by {
            assert(own[i] == ahead[i]);
        }
        speculative::alike_until(x, y, a as int);
        let kept = own.take(a as int);
        assert(kept.len() == a);
        if exists|j: int| 0 <= j < a && Some(#[trigger] own[j]) == eos {
            let j = choose|j: int| 0 <= j < a && Some(#[trigger] own[j]) == eos;
            assert(kept[j] == own[j]);
        }
        if exists|j: int| 0 <= j < kept.len() && Some(#[trigger] kept[j]) == eos {
            let j = choose|j: int| 0 <= j < kept.len() && Some(#[trigger] kept[j]) == eos;
            assert(own[j] == kept[j]);
        }
        let one = seq![own[a as int]];
        assert(one.len() == 1 && one[0] == own[a as int]);
    }
}

/// Requests leave the queue in their order for free slots until one of the two has run out; slots in
/// use are left alone, and a slot that is filled has the number, the limit and the ending token of a
/// request that has left the queue, and no tokens yet. One that asks for none is done at once.
pub proof fn requests_take_free_slots(m: BatchModel) -> (k: int)
    ensures
        0 <= k <= m.queue.len(),
        continuous::seated(m).queue == m.queue.skip(k),
        continuous::seated(m).seats.len() == m.seats.len(),
        continuous::seated(m).queue.len() == 0 || forall|b: int| 0 <= b < m.seats.len() ==> (#[trigger] continuous::seated(m).seats[b]) is Some,
        forall|b: int| 0 <= b < m.seats.len() && m.seats[b] is Some ==> #[trigger] continuous::seated(m).seats[b] == m.seats[b],
        forall|b: int|
            0 <= b < m.seats.len() && m.seats[b] is None ==> ((#[trigger] continuous::seated(m).seats[b]) matches Some(s) ==> from_queue(m.queue, k, s)),
        forall|i: int|
            m.done.len() <= i < continuous::seated(m).done.len() ==> asked_for_none(m.queue, k, #[trigger] continuous::seated(m).done[i]),
        m.done.len() <= continuous::seated(m).done.len(),
        forall|i: int| 0 <= i < m.done.len() ==> #[trigger] continuous::seated(m).done[i] == m.done[i],
    decreases m.queue.len(),
{
    let after = continuous::seated(m);
    continuous::first_free_is_free(m.seats, 0);
    match continuous::first_free(m.seats, 0) {
        None => {
            none_is_free(m.seats, 0);
            assert(m.queue.skip(0) =~= m.queue);
            0
        },
        Some(b) => {
            if m.queue.len() == 0 {
                assert(m.queue.skip(0) =~= m.queue);
                0
            } else {
                let next = continuous::seated_one(m, b);
                let j = requests_take_free_slots(next);
                let k = j + 1;
                assert(m.queue.skip(1).skip(j) =~= m.queue.skip(k));
                let r = m.queue[0];
                assert forall|c: int| 0 <= c < m.seats.len() && m.seats[c] is Some implies #[trigger] after.seats[c] == m.seats[c] by {
                    assert(next.seats[c] == m.seats[c]);
                }
                assert forall|c: int| 0 <= c < m.seats.len() && m.seats[c] is None implies ((#[trigger] after.seats[c]) matches Some(s) ==> from_queue(
                    m.queue,
                    k,
                    s,
                )) by {
                    if let Some(s) = after.seats[c] {
                        if next.seats[c] is Some {
                            assert(after.seats[c] == next.seats[c]);
                            assert(asks(m.queue[0], s));
                        } else {
                            assert(from_queue(next.queue, j, s));
                            let i = choose|i: int| 0 <= i < j && asks(#[trigger] next.queue[i], s);
                            assert(m.queue[i + 1] == next.queue[i]);
                            assert(asks(m.queue[i + 1], s));
                        }
                    }
                }
                assert forall|i: int| m.done.len() <= i < after.done.len() implies asked_for_none(m.queue, k, #[trigger] after.done[i]) by {
                    let c = after.done[i];
                    if i < next.done.len() {
                        assert(after.done[i] == next.done[i]);
                        assert(wants_none(m.queue[0], c));
                    } else {
                        assert(asked_for_none(next.queue, j, c));
                        let x = choose|x: int| 0 <= x < j && wants_none(#[trigger] next.queue[x], c);
                        assert(m.queue[x + 1] == next.queue[x]);
                        assert(wants_none(m.queue[x + 1], c));
                    }
                }
                assert forall|i: int| 0 <= i < m.done.len() implies #[trigger] after.done[i] == m.done[i] by {
                    assert(next.done[i] == m.done[i]);
                }
                k
            }
        },
    }
}

/// The request that has waited longest takes the first free slot.
pub proof fn longest_waiting_takes_first_free_slot(m: BatchModel, f: int)
    requires
        m.queue.len() > 0,
        m.queue[0].max_new_tokens > 0,
        0 <= f < m.seats.len(),
        m.seats[f] is None,
        forall|b: int| 0 <= b < f ==> (#[trigger] m.seats[b]) is Some,
    ensures
        continuous::seated(m).seats[f] matches Some(s) && asks(m.queue[0], s),
{
    free_slot_is_found(m.seats, f, 0);
    let next = continuous::seated_one(m, f);
    let k = requests_take_free_slots(next);
    assert(continuous::seated(next).seats[f] == next.seats[f]);
}

proof fn free_slot_is_found(seats: Seq<Option<Seat>>, f: int, b: int)
    requires
        0 <= b <= f < seats.len(),
        seats[f] is None,
        forall|c: int| 0 <= c < f ==> (#[trigger] seats[c]) is Some,
    ensures
        continuous::first_free(seats, b) == Some(f),
    decreases f - b,
{
    if b < f {
        assert(seats[b] is Some);
        free_slot_is_found(seats, f, b + 1);
    }
}

/// A slot starts with what the request asks for.
pub open spec fn asks(r: RequestModel, s: Seat) -> bool {
    r.id == s.id && r.max_new_tokens == s.max_new_tokens && r.eos == s.eos && s.output.len() == 0 && r.max_new_tokens > 0
}

/// One of the first requests asks for what a slot starts with.
pub open spec fn from_queue(queue: Seq<RequestModel>, k: int, s: Seat) -> bool {
    exists|i: int| 0 <= i < k && asks(#[trigger] queue[i], s)
}

/// A request for no tokens is answered with none.
pub open spec fn wants_none(r: RequestModel, c: CompletedModel) -> bool {
    r.id == c.id && r.max_new_tokens == 0 && c.tokens.len() == 0
}

/// One of the first requests asks for no tokens.
pub open spec fn asked_for_none(queue: Seq<RequestModel>, k: int, c: CompletedModel) -> bool {
    exists|i: int| 0 <= i < k && wants_none(#[trigger] queue[i], c)
}

proof fn none_is_free(seats: Seq<Option<Seat>>, b: int)
    requires
        0 <= b,
        continuous::first_free(seats, b) is None,
    ensures
        forall|c: int| b <= c < seats.len() ==> (#[trigger] seats[c]) is Some,
    decreases seats.len() - b,
{
    if b < seats.len() {
        none_is_free(seats, b + 1);
    }
}

/// In a step each slot in use takes the token that was picked for it: the sequence goes on with it,
/// or it was the last that was asked for or the one that ends it, and the sequence is done and the
/// slot free. Free slots stay free, and no request leaves the queue.
pub proof fn slots_take_their_tokens(m: BatchModel, picked: Seq<u32>, n: int, b: int)
    requires
        0 <= b < n <= m.seats.len(),
    ensures
        ({
            let after = continuous::served(m, picked, n);
            &&& after.queue == m.queue
            &&& m.seats[b] is None ==> after.seats[b] is None
            &&& m.seats[b] matches Some(s) ==> {
                let tokens = s.output.push(picked[b]);
                if tokens.len() < s.max_new_tokens && Some(picked[b]) != s.eos {
                    after.seats[b] matches Some(t) && t.output == tokens && t.id == s.id && t.max_new_tokens == s.max_new_tokens && t.eos == s.eos
                } else {
                    after.seats[b] is None && exists|i: int|
                        0 <= i < after.done.len() && (#[trigger] after.done[i]).id == s.id && after.done[i].tokens == tokens
                }
            }
        }),
        continuous::served(m, picked, n).done.len() >= m.done.len(),
        forall|i: int| 0 <= i < m.done.len() ==> #[trigger] continuous::served(m, picked, n).done[i] == m.done[i],
    decreases n,
{
    let before = continuous::served(m, picked, n - 1);
    let after = continuous::served(m, picked, n);
    continuous::served_keeps(m, picked, n - 1);
    continuous::served_keeps(m, picked, n);
    if n > 1 {
        slots_take_their_tokens(m, picked, n - 1, if b < n - 1 { b } else { 0 });
    }
    if b < n - 1 {
        assert(after.seats[b] == before.seats[b]);
        if let Some(s) = m.seats[b] {
            let tokens = s.output.push(picked[b]);
            if !(tokens.len() < s.max_new_tokens && Some(picked[b]) != s.eos) {
                let i = choose|i: int| 0 <= i < before.done.len() && (#[trigger] before.done[i]).id == s.id && before.done[i].tokens == tokens;
                assert(after.done[i] == before.done[i]);
            }
        }
    } else {
        assert(before.seats[b] == m.seats[b]);
        if let Some(s) = m.seats[b] {
            let tokens = s.output.push(picked[b]);
            if !(tokens.len() < s.max_new_tokens && Some(picked[b]) != s.eos) {
                let i = before.done.len() as int;
                assert(after.done[i].id == s.id && after.done[i].tokens == tokens);
            }
        }
    }
}

/// A prompt is run in lockstep with others by its own tokens, and after its end by its last.
pub proof fn ended_answers_run_along(out: Seq<u32>, rounds: nat, i: int)
    requires
        0 <= i < rounds,
    ensures
        batch::run_along(out, rounds).len() == rounds,
        i < out.len() ==> batch::run_along(out, rounds)[i] == out[i],
        i >= out.len() > 0 ==> batch::run_along(out, rounds)[i] == out[out.len() - 1],
{
}

impl Network {
    /// Without a cache the first token is picked after the whole prompt, and every other after the token
    /// before it alone.
    pub proof fn without_a_cache_one_token_is_seen<F: Fn(Op, &[u32], &[u32], &[u32]) -> Vec<u32>, P: Fn(&[u32]) -> u32>(
        self,
        unit: F,
        pick: P,
        prompt: Seq<u32>,
        tokens: Seq<u32>,
        j: int,
    )
        requires
            self.follows_alone(unit, pick, prompt, tokens),
            0 <= j < tokens.len(),
        ensures
            j == 0 ==> generate::picks(
                pick,
                self.logits(unit, self.state(unit, prompt, self.layers.len() as int, prompt.len() - 1)),
                tokens[0],
            ),
            j > 0 ==> generate::picks(pick, self.logits(unit, self.state(unit, seq![tokens[j - 1]], self.layers.len() as int, 0)), tokens[j]),
    {
        assert(generate::picks(pick, self.scores_after(unit, if j == 0 {
            prompt
        } else {
            seq![tokens[j - 1]]
        }), tokens[j]));
    }

    /// A greedy run takes, token by token, the largest score after the text and the tokens before it.
    pub proof fn greedy_runs_take_the_largest<F: Fn(Op, &[u32], &[u32], &[u32]) -> Vec<u32>>(self, unit: F, text: Seq<u32>, n: nat, t: u32)
        requires
            sampler::greediest(self.scores_after(unit, text + self.greedy_run(unit, text, n)), t),
        ensures
            self.greedy_run(unit, text, n + 1) == self.greedy_run(unit, text, n).push(t),
            self.greedy_run(unit, text, 0).len() == 0,
    {
        let row = self.scores_after(unit, text + self.greedy_run(unit, text, n));
        sampler::greediest_is_one(row, speculative::greedy_choice(row), t);
    }
}

impl Model {
    /// A cache for as many sequences as before keeps its tensors; all slots are empty either way.
    pub proof fn caches_are_emptied(self, batch: usize, after: Model, slot: int)
        requires
            self.recached(batch, after),
            0 <= slot < batch,
        ensures
            after.cache is Some,
            after.cache.unwrap().batch == batch,
            after.end(slot) == 0,
            self.cache matches Some(c) ==> c.batch == batch ==> after.cache.unwrap().k == c.k && after.cache.unwrap().v == c.v,
            !(self.cache matches Some(c) && c.batch == batch) ==> after.cache.unwrap().k@.len() == self.config.num_layers,
    {
        assert(after.cache.unwrap().seq_lens@[slot] == 0);
    }

    /// A model runs its packed layers where it has any, and otherwise those of floats.
    pub proof fn packed_layers_are_run_first(self)
        ensures
            self.bit_layers matches Some(list) ==> self.network().layers == list@,
            self.bit_layers is None ==> self.network().layers == self.layers@,
            self.network().embedding == self.embedding,
            self.network().pos_embedding == self.pos_embedding,
            self.network().norm == self.norm,
            self.network().lm_head == self.lm_head,
            self.network().config == self.config,
    {
    }
}

} // verus!
