//! Generation of tokens, one sequence at a time or several in lockstep.
use super::cache::KvCache;
use super::model::Model;
use super::network::Network;
use super::unit;
use super::unit::Op;
use crate::tensor::shape;
use crate::tensor::tensor::Tensor;
use vstd::prelude::*;

verus! {

/// A way of picking tokens may pick `token` from a row of scores.
pub open spec fn picks<P: Fn(&[u32]) -> u32>(pick: P, row: Seq<u32>, token: u32) -> bool {
    exists|s: &[u32]| s@ == row && #[trigger] call_ensures(pick, (s,), token)
}

/// A way of picking tokens answers every row, and never with a token that the model lacks.
pub open spec fn picks_known<P: Fn(&[u32]) -> u32>(pick: P, net: Network) -> bool {
    &&& forall|s: &[u32]| #[trigger] call_requires(pick, (s,))
    &&& forall|s: &[u32], t: u32| s@.len() == net.scores() && #[trigger] call_ensures(pick, (s,), t) ==> t < net.embedding.vocab_size
}

impl Network {
    /// The scores of the token that follows a sequence.
    pub open spec fn scores_after<F: Fn(Op, &[u32], &[u32], &[u32]) -> Vec<u32>>(self, unit: F, past: Seq<u32>) -> Seq<u32> {
        self.logits(unit, self.state(unit, past, self.layers.len() as int, past.len() - 1))
    }

    /// Each of the tokens was picked from the scores that follow the sequence and the tokens
    /// before it.
    pub open spec fn follows<F: Fn(Op, &[u32], &[u32], &[u32]) -> Vec<u32>, P: Fn(&[u32]) -> u32>(
        self,
        unit: F,
        pick: P,
        past: Seq<u32>,
        tokens: Seq<u32>,
    ) -> bool {
        forall|j: int| 0 <= j < tokens.len() ==> picks(pick, self.scores_after(unit, past + tokens.take(j)), #[trigger] tokens[j])
    }

    /// The first token was picked from the scores that follow the prompt, and each other from the
    /// scores that follow the token before it and nothing else.
    pub open spec fn follows_alone<F: Fn(Op, &[u32], &[u32], &[u32]) -> Vec<u32>, P: Fn(&[u32]) -> u32>(
        self,
        unit: F,
        pick: P,
        prompt: Seq<u32>,
        tokens: Seq<u32>,
    ) -> bool {
        forall|j: int|
            0 <= j < tokens.len() ==> picks(
                pick,
                self.scores_after(unit, if j == 0 { prompt } else { seq![tokens[j - 1]] }),
                #[trigger] tokens[j],
            )
    }

    /// One more token that was picked from the scores that follow.
    pub proof fn follows_more<F: Fn(Op, &[u32], &[u32], &[u32]) -> Vec<u32>, P: Fn(&[u32]) -> u32>(
        self,
        unit: F,
        pick: P,
        past: Seq<u32>,
        tokens: Seq<u32>,
        token: u32,
    )
        requires
            self.follows(unit, pick, past, tokens),
            picks(pick, self.scores_after(unit, past + tokens), token),
        ensures
            self.follows(unit, pick, past, tokens.push(token)),
    {
        let longer = tokens.push(token);
        assert forall|j: int| 0 <= j < longer.len() implies picks(
            pick,
            self.scores_after(unit, past + longer.take(j)),
            #[trigger] longer[j],
        ) by {
            if j < tokens.len() {
                assert(longer.take(j) =~= tokens.take(j));
                assert(longer[j] == tokens[j]);
            } else {
                assert(longer.take(j) =~= tokens);
            }
        }
    }

    /// Where picking leaves no choice, the shorter of two continuations of one sequence is the
    /// beginning of the longer.
    pub proof fn one_continuation<F: Fn(Op, &[u32], &[u32], &[u32]) -> Vec<u32>, P: Fn(&[u32]) -> u32>(
        self,
        unit: F,
        pick: P,
        past: Seq<u32>,
        a: Seq<u32>,
        b: Seq<u32>,
    )
        requires
            forall|row: Seq<u32>, s: u32, t: u32| #[trigger] picks(pick, row, s) && #[trigger] picks(pick, row, t) ==> s == t,
            self.follows(unit, pick, past, a),
            self.follows(unit, pick, past, b),
            b.len() <= a.len(),
        ensures
            b == a.take(b.len() as int),
        decreases b.len(),
    {
        if b.len() > 0 {
            let n = b.len() - 1;
            assert forall|j: int| 0 <= j < n implies picks(
                pick,
                self.scores_after(unit, past + b.drop_last().take(j)),
                #[trigger] b.drop_last()[j],
            ) by {
                assert(b.drop_last().take(j) =~= b.take(j));
                assert(b.drop_last()[j] == b[j]);
            }
            self.one_continuation(unit, pick, past, a, b.drop_last());
            assert(b.take(n) =~= b.drop_last());
            assert(picks(pick, self.scores_after(unit, past + a.take(n)), a[n]));
            assert(picks(pick, self.scores_after(unit, past + b.take(n)), b[n]));
            assert(b =~= b.drop_last().push(b[n]));
            assert(a.take(b.len() as int) =~= a.take(n).push(a[n]));
        } else {
            assert(b =~= a.take(0));
        }
    }
}

impl Model {
    /// Picks a token from a row of scores.
    pub fn logits_to_token<P: Fn(&[u32]) -> u32>(&self, logits: &Tensor, row: usize, pick: &P) -> (t: u32)
        requires
            logits@.wf(),
            logits@.shape.len() == 2,
            row < logits@.shape[0],
            logits@.shape[1] == self.config.vocab_size,
            forall|s: &[u32]| #[trigger] call_requires(*pick, (s,)),
        ensures
            picks(*pick, logits@.chunk(row as int, self.config.vocab_size as int), t),
    {
        proof {
            assert(logits@.shape =~= seq![logits@.shape[0], logits@.shape[1]]);
            shape::product_two(logits@.shape[0], logits@.shape[1]);
            assert((row + 1) * self.config.vocab_size <= logits@.shape[0] * logits@.shape[1]) by (nonlinear_arith)
                requires
                    row < logits@.shape[0],
                    logits@.shape[1] == self.config.vocab_size,
            ;
        }
        let scores: Vec<u32> = logits.chunk_lanes(row, self.config.vocab_size);
        let t: u32 = pick(scores.as_slice());
        assert(picks(*pick, logits@.chunk(row as int, self.config.vocab_size as int), t));
        t
    }

    /// Runs a prompt in the first slot and picks the token that follows it.
    pub fn first_token<F: Fn(Op, &[u32], &[u32], &[u32]) -> Vec<u32>, P: Fn(&[u32]) -> u32>(
        &mut self,
        prompt_tokens: &[u32],
        pick: &P,
        unit: &F,
    ) -> (t: u32)
        requires
            unit::lawful(*unit),
            prompt_tokens@.len() > 0,
            old(self).ready(0, prompt_tokens@),
            old(self).network().scores() == old(self).config.vocab_size,
            forall|s: &[u32]| #[trigger] call_requires(*pick, (s,)),
        ensures
            old(self).stepped(*unit, *final(self), 0, prompt_tokens@),
            picks(
                *pick,
                old(self).network().logits(
                    *unit,
                    old(self).last_row(*unit, 0, prompt_tokens@, final(self).cache, prompt_tokens@.len() - 1),
                ),
                t,
            ),
    {
        let ghost net = self.network();
        let logits: Tensor = self.forward(prompt_tokens, unit);
        assert(prompt_tokens.len() == prompt_tokens@.len());
        self.logits_to_token(&logits, prompt_tokens.len() - 1, pick)
    }

    /// Runs a token in the first slot and picks the token that follows it.
    pub fn next_token<F: Fn(Op, &[u32], &[u32], &[u32]) -> Vec<u32>, P: Fn(&[u32]) -> u32>(&mut self, token: u32, pick: &P, unit: &F) -> (t: u32)
        requires
            unit::lawful(*unit),
            old(self).ready(0, seq![token]),
            old(self).network().scores() == old(self).config.vocab_size,
            forall|s: &[u32]| #[trigger] call_requires(*pick, (s,)),
        ensures
            old(self).stepped(*unit, *final(self), 0, seq![token]),
            picks(
                *pick,
                old(self).network().logits(*unit, old(self).last_row(*unit, 0, seq![token], final(self).cache, 0)),
                t,
            ),
    {
        let one: Vec<u32> = vec![token];
        assert(one@ =~= seq![token]);
        self.first_token(one.as_slice(), pick, unit)
    }

    /// Generates as many tokens after a prompt as the limit says; none after an empty prompt. The
    /// prompt goes on from what the cache holds; where nothing is generated it is not run. Without
    /// a cache each token is followed as if nothing stood before it.
    pub fn generate<F: Fn(Op, &[u32], &[u32], &[u32]) -> Vec<u32>, P: Fn(&[u32]) -> u32>(
        &mut self,
        prompt_tokens: &[u32],
        max_new_tokens: usize,
        pick: &P,
        unit: &F,
    ) -> (out: Vec<u32>)
        requires
            unit::lawful(*unit),
            old(self).ready(0, prompt_tokens@),
            old(self).network().room(1),
            old(self).network().scores() == old(self).config.vocab_size,
            old(self).cache is Some ==> old(self).end(0) + prompt_tokens@.len() + max_new_tokens <= old(self).config.max_seq_len + 1,
            picks_known(*pick, old(self).network()),
        ensures
            final(self).network() == old(self).network(),
            final(self).layers == old(self).layers,
            final(self).bit_layers == old(self).bit_layers,
            prompt_tokens@.len() == 0 || max_new_tokens == 0 ==> out@.len() == 0 && final(self).cache == old(self).cache,
            prompt_tokens@.len() > 0 && max_new_tokens > 0 ==> out@.len() == max_new_tokens,
            old(self).cache is None ==> final(self).cache is None && old(self).network().follows_alone(*unit, *pick, prompt_tokens@, out@),
            prompt_tokens@.len() > 0 && max_new_tokens > 0 && old(self).cache is Some ==> {
                &&& final(self).cache is Some
                &&& final(self).network().cache_fits(final(self).cache.unwrap())
                &&& final(self).cache.unwrap().batch == old(self).cache.unwrap().batch
                &&& final(self).end(0) == old(self).end(0) + prompt_tokens@.len() + out@.len() - 1
                &&& forall|past: Seq<u32>|
                    past.len() == old(self).end(0) && #[trigger] old(self).network().holds(*unit, old(self).cache.unwrap(), 0, past) ==> {
                        let start = past + prompt_tokens@;
                        &&& old(self).network().follows(*unit, *pick, start, out@)
                        &&& old(self).network().holds(*unit, final(self).cache.unwrap(), 0, (start + out@.drop_last()))
                    }
            },
    {
        let mut out: Vec<u32> = Vec::new();
        let ghost first = *self;
        let ghost net = self.network();
        let ghost pos = self.end(0);
        let ghost prompt = prompt_tokens@;
        if prompt_tokens.len() == 0 || max_new_tokens == 0 {
            return out;
        }
        let mut token: u32 = self.first_token(prompt_tokens, pick, unit);
        out.push(token);
        proof {
            assert(out@ =~= seq![token]);
            assert(self.network() == net);
            assert forall|past: Seq<u32>|
                first.cache is Some && past.len() == pos && #[trigger] net.holds(*unit, first.cache.unwrap(), 0, past) implies net.started(
                *unit,
                *pick,
                self.cache.unwrap(),
                past,
                prompt,
                out@,
            ) by {
                net.run_extends(*unit, first.cache.unwrap(), self.cache.unwrap(), 0, past, prompt);
                let start = past + prompt;
                assert((start + Seq::<u32>::empty()) =~= start);
                assert(out@.drop_last() =~= Seq::<u32>::empty());
                assert(first.last_row(*unit, 0, prompt, self.cache, prompt.len() - 1) == net.state(
                    *unit,
                    start,
                    net.layers.len() as int,
                    start.len() - 1,
                ));
                net.follows_more(*unit, *pick, start, Seq::empty(), token);
                assert(Seq::<u32>::empty().push(token) =~= out@);
            }
        }
        let mut i: usize = 1;
        while i < max_new_tokens
            invariant
                unit::lawful(*unit),
                net.fits(),
                net == self.network(),
                net == first.network(),
                net.room(1),
                net.scores() == net.config.vocab_size,
                picks_known(*pick, net),
                self.layers == first.layers,
                self.bit_layers == first.bit_layers,
                self.cache is Some <==> first.cache is Some,
                first.cache is None ==> net.follows_alone(*unit, *pick, prompt, out@),
                first.cache is Some ==> {
                    &&& net.cache_fits(self.cache.unwrap())
                    &&& self.cache.unwrap().batch == first.cache.unwrap().batch
                    &&& 0 < self.cache.unwrap().batch
                    &&& 0 < net.config.max_seq_len
                    &&& pos + prompt.len() + max_new_tokens <= net.config.max_seq_len + 1
                    &&& self.end(0) == pos + prompt.len() + i - 1
                },
                pos == first.end(0),
                1 <= i <= max_new_tokens,
                out@.len() == i,
                token == out@.last(),
                token < net.embedding.vocab_size,
                forall|past: Seq<u32>|
                    first.cache is Some && past.len() == pos && #[trigger] net.holds(*unit, first.cache.unwrap(), 0, past) ==> net.started(
                        *unit,
                        *pick,
                        self.cache.unwrap(),
                        past,
                        prompt,
                        out@,
                    ),
            decreases max_new_tokens - i,
        {
            let ghost mid = *self;
            let ghost before = out@;
            let next: u32 = self.next_token(token, pick, unit);
            proof {
                assert(self.network() == net);
                assert forall|past: Seq<u32>|
                    first.cache is Some && past.len() == pos && #[trigger] net.holds(*unit, first.cache.unwrap(), 0, past) implies net.started(
                    *unit,
                    *pick,
                    self.cache.unwrap(),
                    past,
                    prompt,
                    before.push(next),
                ) by {
                    assert(net.started(*unit, *pick, mid.cache.unwrap(), past, prompt, before));
                    let start = past + prompt;
                    let running = (start + before.drop_last());
                    net.run_extends(*unit, mid.cache.unwrap(), self.cache.unwrap(), 0, running, seq![token]);
                    assert(before.drop_last().push(token) =~= before);
                    assert(before.push(next).drop_last() =~= before);
                    assert(start + before =~= running + seq![token]);
                    assert(mid.last_row(*unit, 0, seq![token], self.cache, 0) == net.state(
                        *unit,
                        (start + before),
                        net.layers.len() as int,
                        (start + before).len() - 1,
                    ));
                    net.follows_more(*unit, *pick, start, before, next);
                }
            }
            token = next;
            out.push(token);
            proof {
                if first.cache is None {
                    assert forall|j: int| 0 <= j < out@.len() implies picks(
                        *pick,
                        net.scores_after(*unit, if j == 0 { prompt } else { seq![out@[j - 1]] }),
                        #[trigger] out@[j],
                    ) by {
                        if j < i {
                            assert(out@[j] == before[j]);
                        }
                    }
                }
            }
            i = i + 1;
        }
        out
    }
}

impl Network {
    /// The tokens follow a sequence and a prompt, and the first slot of the cache holds all of
    /// it but the last token.
    pub open spec fn started<F: Fn(Op, &[u32], &[u32], &[u32]) -> Vec<u32>, P: Fn(&[u32]) -> u32>(
        self,
        unit: F,
        pick: P,
        cache: KvCache,
        past: Seq<u32>,
        prompt: Seq<u32>,
        out: Seq<u32>,
    ) -> bool {
        let start = past + prompt;
        &&& self.follows(unit, pick, start, out)
        &&& self.holds(unit, cache, 0, (start + out.drop_last()))
    }
}

} // verus!
