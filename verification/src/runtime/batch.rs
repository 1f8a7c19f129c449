//! Generation for several sequences in lockstep, each in its own slot of the cache.
use super::cache::KvCache;
use super::generate;
use super::model::Model;
use super::network::Network;
use super::unit;
use super::unit::Op;
use crate::tensor::rows;
use crate::tensor::shape;
use crate::tensor::tensor;
use crate::tensor::tensor::Tensor;
use crate::tensor::types::DType;
use vstd::prelude::*;

verus! {

/// The prompt that is run: the first token of all stands for an empty prompt.
pub open spec fn run_prompt(prompt: Seq<u32>) -> Seq<u32> {
    if prompt.len() == 0 {
        seq![0u32]
    } else {
        prompt
    }
}

/// A continuation ends with the token that ends sequences, or has reached the limit; no token
/// before the last ends it.
pub open spec fn stops(out: Seq<u32>, limit: int, eos: Option<u32>) -> bool {
    &&& out.len() <= limit
    &&& out.len() == limit || (out.len() > 0 && Some(out.last()) == eos)
    &&& forall|j: int| 0 <= j < out.len() - 1 ==> Some(#[trigger] out[j]) != eos
}

/// A continuation has come to the token that ends it.
pub open spec fn ended(out: Seq<u32>, eos: Option<u32>) -> bool {
    out.len() > 0 && Some(out.last()) == eos
}

/// How many tokens after the prompts are run in lockstep: as many as the limit says, or one less
/// than the longest continuation has where all have ended.
pub open spec fn rounds_run(outputs: Seq<Vec<u32>>, limit: int, eos: Option<u32>, rounds: nat) -> bool {
    if forall|b: int| 0 <= b < outputs.len() ==> ended((#[trigger] outputs[b])@, eos) {
        &&& rounds < limit
        &&& forall|b: int| 0 <= b < outputs.len() ==> (#[trigger] outputs[b])@.len() <= rounds + 1
        &&& exists|b: int| 0 <= b < outputs.len() && (#[trigger] outputs[b])@.len() == rounds + 1
    } else {
        rounds == limit
    }
}

/// The tokens that are run for a continuation in so many rounds: its own, and after them the one
/// that ended it, over and over.
pub open spec fn run_along(out: Seq<u32>, rounds: nat) -> Seq<u32> {
    Seq::new(rounds, |i: int| if i < out.len() { out[i] } else { out.last() })
}

impl Model {
    /// The model can run the prompts, each in a slot of its own, and `more` tokens after each.
    pub open spec fn ready_prompts(self, prompts: Seq<&[u32]>, more: int) -> bool {
        let net = self.network();
        &&& net.fits()
        &&& self.config.num_layers == self.live().len()
        &&& self.config.num_heads > 0
        &&& net.scores() == self.config.vocab_size
        &&& self.cache matches Some(c) ==> net.cache_fits(c)
        &&& prompts.len() * self.config.kv_heads() * self.config.max_seq_len <= usize::MAX
        &&& self.cache_storable(prompts.len() as usize)
        &&& tensor::storable(seq![prompts.len() as usize, self.config.vocab_size], DType::F32)
        &&& forall|b: int| 0 <= b < prompts.len() ==> self.ready_prompt((#[trigger] prompts[b])@, more)
    }

    /// The model can run a prompt from the beginning and `more` tokens after it.
    pub open spec fn ready_prompt(self, prompt: Seq<u32>, more: int) -> bool {
        &&& self.network().knows(run_prompt(prompt))
        &&& self.network().room(run_prompt(prompt).len() as usize)
        &&& run_prompt(prompt).len() + more <= self.config.max_seq_len
    }

    /// Runs each prompt in a slot of its own, from the beginning, and gives the scores of the
    /// token that follows each.
    pub fn prefill_batch<F: Fn(Op, &[u32], &[u32], &[u32]) -> Vec<u32>>(&mut self, prompts: &[&[u32]], unit: &F) -> (t: Tensor)
        requires
            unit::lawful(*unit),
            old(self).ready_prompts(prompts@, 0),
        ensures
            final(self).network() == old(self).network(),
            final(self).layers == old(self).layers,
            final(self).bit_layers == old(self).bit_layers,
            final(self).cache is Some,
            final(self).network().cache_fits(final(self).cache.unwrap()),
            final(self).cache.unwrap().batch == prompts@.len(),
            forall|b: int| 0 <= b < prompts@.len() ==> #[trigger] final(self).end(b) == run_prompt(prompts@[b]@).len(),
            forall|b: int| 0 <= b < prompts@.len() ==> final(self).network().holds(
                *unit,
                final(self).cache.unwrap(),
                b,
                run_prompt((#[trigger] prompts@[b])@),
            ),
            t@.wf(),
            t@.dtype is F32,
            t@.shape == seq![prompts@.len() as usize, old(self).config.vocab_size],
            forall|b: int| 0 <= b < prompts@.len() ==> #[trigger] t@.chunk(b, old(self).config.vocab_size as int)
                == old(self).network().scores_after(*unit, run_prompt(prompts@[b]@)),
    {
        let ghost net = self.network();
        let n: usize = prompts.len();
        let width: usize = self.config.vocab_size;
        self.ensure_cache_batch(n);
        let mut flat: Vec<u32> = Vec::new();
        let mut b: usize = 0;
        while b < n
            invariant
                unit::lawful(*unit),
                net == self.network(),
                n == prompts@.len(),
                width == net.config.vocab_size,
                self.ready_prompts(prompts@, 0),
                self.layers == old(self).layers,
                self.bit_layers == old(self).bit_layers,
                self.cache is Some,
                self.cache.unwrap().batch == n,
                b <= n,
                forall|j: int| 0 <= j < b ==> #[trigger] self.end(j) == run_prompt(prompts@[j]@).len(),
                forall|j: int| b <= j < n ==> #[trigger] self.end(j) == 0,
                forall|j: int| 0 <= j < b ==> net.holds(*unit, self.cache.unwrap(), j, run_prompt((#[trigger] prompts@[j])@)),
                flat@.len() == b * width,
                forall|j: int| 0 <= j < b ==> #[trigger] rows::row_of(flat@, j, width as int) == net.scores_after(*unit, run_prompt(prompts@[j]@)),
            decreases n - b,
        {
            let ghost before = self.cache.unwrap();
            let ghost prompt = run_prompt(prompts@[b as int]@);
            let ghost past = run_prompt(prompts@[b as int]@);
            proof {
                assert(self.ready_prompt(prompts@[b as int]@, 0));
                assert(self.end(b as int) == 0);
            }
            let ghost first = *self;
            let len: usize = prompts[b].len();
            let dummy: Vec<u32> = vec![0u32];
            assert(dummy@ =~= seq![0u32]);
            let logits: Tensor = if len == 0 {
                self.forward_slot(dummy.as_slice(), b, unit)
            } else {
                self.forward_slot(prompts[b], b, unit)
            };
            let last: usize = if len == 0 { 0 } else { len - 1 };
            proof {
                let after = self.cache.unwrap();
                assert(last == prompt.len() - 1);
                assert(self.network() == net);
                net.nothing_holds(*unit, before, b as int);
                net.run_extends(*unit, before, after, b as int, Seq::empty(), prompt);
                assert(prompt =~= past);
                assert(first.last_row(*unit, b as int, prompt, self.cache, prompt.len() - 1) == net.state(
                    *unit,
                    past,
                    net.layers.len() as int,
                    past.len() - 1,
                ));
                assert forall|j: int| 0 <= j < b implies net.holds(*unit, after, j, run_prompt((#[trigger] prompts@[j])@)) by {
                    assert(net.slot_kept(before, after, j));
                    net.kept_holds(*unit, before, after, j, run_prompt(prompts@[j]@));
                }
                assert forall|j: int| 0 <= j < n implies #[trigger] self.end(j) == (if j == b {
                    prompt.len() as int
                } else {
                    first.end(j)
                }) by {
                    assert(after.seq_lens@ == before.seq_lens@.update(b as int, prompt.len() as usize));
                }
                shape::product_two(logits@.shape[0], logits@.shape[1]);
                assert((last + 1) * width <= logits@.shape[0] * logits@.shape[1]) by (nonlinear_arith)
                    requires
                        last + 1 == logits@.shape[0],
                        width == logits@.shape[1],
                ;
            }
            let row: Vec<u32> = logits.chunk_lanes(last, width);
            proof {
                assert(row@ == net.scores_after(*unit, past));
                rows::row_added(flat@, row@, b as int, width as int);
            }
            rows::push_row(&mut flat, row.as_slice());
            b = b + 1;
        }
        Tensor::from_rows(flat.as_slice(), n, width)
    }

    /// Generates up to `max_new_tokens` tokens after each of several prompts. A sequence stops
    /// when it produces `eos`; the others go on.
    pub fn generate_batch<F: Fn(Op, &[u32], &[u32], &[u32]) -> Vec<u32>, P: Fn(&[u32]) -> u32>(
        &mut self,
        prompts: &[&[u32]],
        max_new_tokens: usize,
        pick: &P,
        eos: Option<u32>,
        unit: &F,
    ) -> (outputs: Vec<Vec<u32>>)
        requires
            unit::lawful(*unit),
            old(self).ready_prompts(prompts@, max_new_tokens as int),
            old(self).network().room(prompts@.len() as usize),
            generate::picks_known(*pick, old(self).network()),
        ensures
            final(self).network() == old(self).network(),
            final(self).layers == old(self).layers,
            final(self).bit_layers == old(self).bit_layers,
            outputs@.len() == prompts@.len(),
            forall|b: int| 0 <= b < prompts@.len() ==> stops((#[trigger] outputs@[b])@, max_new_tokens as int, eos),
            forall|b: int| 0 <= b < prompts@.len() ==> old(self).network().follows(
                *unit,
                *pick,
                run_prompt(prompts@[b]@),
                (#[trigger] outputs@[b])@,
            ),
            prompts@.len() == 0 || max_new_tokens == 0 ==> final(self).cache == old(self).cache,
            prompts@.len() > 0 && max_new_tokens > 0 ==> {
                &&& final(self).cache is Some
                &&& final(self).network().cache_fits(final(self).cache.unwrap())
                &&& final(self).cache.unwrap().batch == prompts@.len()
                &&& exists|rounds: nat| #[trigger]
                    rounds_run(outputs@, max_new_tokens as int, eos, rounds) && forall|b: int|
                        0 <= b < prompts@.len() ==> final(self).network().slot_runs(
                            *unit,
                            final(self).cache.unwrap(),
                            b,
                            prompts@[b]@,
                            run_along((#[trigger] outputs@[b])@, rounds),
                        )
            },
    {
        let ghost net = self.network();
        let n: usize = prompts.len();
        let mut outputs: Vec<Vec<u32>> = Vec::new();
        let mut next: Vec<u32> = Vec::new();
        let mut done: Vec<bool> = Vec::new();
        let mut b: usize = 0;
        while b < n
            invariant
                b <= n,
                outputs@.len() == b,
                next@.len() == b,
                done@.len() == b,
                forall|j: int| 0 <= j < b ==> (#[trigger] outputs@[j])@ == Seq::<u32>::empty(),
                forall|j: int| 0 <= j < b ==> !(#[trigger] done@[j]),
            decreases n - b,
        {
            outputs.push(Vec::new());
            next.push(0);
            done.push(false);
            b = b + 1;
        }
        if n == 0 || max_new_tokens == 0 {
            return outputs;
        }
        proof {
            assert(prompts@.len() == n);
            assert forall|j: int| 0 <= j < n implies self.ready_prompt((#[trigger] prompts@[j])@, 0) by {
                assert(self.ready_prompt(prompts@[j]@, max_new_tokens as int));
            }
        }
        let mut logits: Tensor = self.prefill_batch(prompts, unit);
        let ghost mut runs: Seq<Seq<u32>> = Seq::new(n as nat, |j: int| Seq::<u32>::empty());
        proof {
            assert forall|j: int| 0 <= j < n implies net.slot_runs(*unit, self.cache.unwrap(), j, prompts@[j]@, #[trigger] runs[j]) by {
                assert((run_prompt(prompts@[j]@) + runs[j]) =~= run_prompt(prompts@[j]@));
                assert(net.holds(*unit, self.cache.unwrap(), j, run_prompt(prompts@[j]@)));
                assert(self.end(j) == run_prompt(prompts@[j]@).len());
            }
            assert forall|j: int| 0 <= j < n implies #[trigger] logits@.chunk(j, net.scores()) == net.scores_after(
                *unit,
                (run_prompt(prompts@[j]@) + runs[j]),
            ) by {
                assert((run_prompt(prompts@[j]@) + runs[j]) =~= run_prompt(prompts@[j]@));
            }
        }
        let mut round: usize = 0;
        let mut going: bool = true;
        let ghost mut ran: nat = 0;
        assert(!done@[0]);
        while round < max_new_tokens && going
            invariant
                unit::lawful(*unit),
                net == self.network(),
                net.fits(),
                net.room(n),
                net.scores() == net.config.vocab_size,
                n == prompts@.len(),
                0 < n,
                generate::picks_known(*pick, net),
                self.layers == old(self).layers,
                self.bit_layers == old(self).bit_layers,
                self.cache is Some,
                net.cache_fits(self.cache.unwrap()),
                self.cache.unwrap().batch == n,
                forall|j: int| 0 <= j < n ==> run_prompt((#[trigger] prompts@[j])@).len() + max_new_tokens <= net.config.max_seq_len,
                round <= max_new_tokens,
                outputs@.len() == n,
                next@.len() == n,
                done@.len() == n,
                runs.len() == n,
                logits@.wf(),
                logits@.dtype is F32,
                logits@.shape == seq![n, net.config.vocab_size],
                ran <= max_new_tokens,
                going ==> ran == round && exists|j: int| 0 <= j < n && !(#[trigger] done@[j]),
                !going ==> ran < max_new_tokens && exists|j: int| 0 <= j < n && (#[trigger] outputs@[j])@.len() == ran + 1,
                !going ==> forall|j: int| 0 <= j < n ==> (#[trigger] outputs@[j])@.len() <= ran + 1,
                forall|j: int| 0 <= j < n ==> (#[trigger] runs[j]).len() == ran,
                forall|j: int| 0 <= j < n ==> net.slot_runs(*unit, self.cache.unwrap(), j, prompts@[j]@, #[trigger] runs[j]),
                forall|j: int| 0 <= j < n && done@[j] ==> #[trigger] runs[j] == run_along(outputs@[j]@, ran),
                forall|j: int| 0 <= j < n && #[trigger] done@[j] ==> ended(outputs@[j]@, eos) && next@[j] == outputs@[j]@.last(),
                going ==> forall|j: int| 0 <= j < n && #[trigger] done@[j] ==> outputs@[j]@.len() <= ran,
                going ==> forall|j: int| 0 <= j < n ==> #[trigger] logits@.chunk(j, net.scores()) == net.scores_after(
                    *unit,
                    (run_prompt(prompts@[j]@) + runs[j]),
                ),
                going ==> forall|j: int| 0 <= j < n && !done@[j] ==> #[trigger] runs[j] == outputs@[j]@,
                forall|j: int| 0 <= j < n ==> net.waits(
                    *unit,
                    *pick,
                    prompts@[j]@,
                    (#[trigger] outputs@[j])@,
                    next@[j],
                    done@[j],
                    max_new_tokens as int,
                    eos,
                ),
                !going ==> forall|j: int| 0 <= j < n ==> #[trigger] done@[j],
            decreases max_new_tokens - round,
        {
            let ghost marked = done@;
            let ghost earlier = outputs@;
            let open: bool = self.pick_round(prompts, &logits, max_new_tokens, pick, eos, &mut outputs, &mut next, &mut done, Ghost(runs), unit);
            proof {
                assert forall|j: int| 0 <= j < n && #[trigger] done@[j] implies ended(outputs@[j]@, eos) && next@[j] == outputs@[j]@.last() && runs[j] == run_along(
                    outputs@[j]@,
                    ran,
                ) && outputs@[j]@.len() <= ran + 1 by {
                    if marked[j] {
                        assert(runs[j] == run_along(earlier[j]@, ran));
                    } else {
                        assert(outputs@[j]@ == runs[j].push(next@[j]));
                        assert(runs[j] =~= run_along(outputs@[j]@, ran));
                    }
                }
            }
            if !open {
                going = false;
                proof {
                    let j = choose|j: int| 0 <= j < n && !(#[trigger] marked[j]);
                    assert(outputs@[j]@ == runs[j].push(next@[j]));
                    assert(outputs@[j]@.len() == ran + 1);
                }
            } else {
                proof {
                    assert(next@.len() == n);
                    assert forall|j: int| 0 <= j < n implies self.ends(n as nat)[j] < net.config.max_seq_len by {
                        assert(net.slot_runs(*unit, self.cache.unwrap(), j, prompts@[j]@, runs[j]));
                        assert(run_prompt(prompts@[j]@).len() + max_new_tokens <= net.config.max_seq_len);
                        assert(runs[j].len() == round);
                    }
                    assert(run_prompt(prompts@[0]@).len() + max_new_tokens <= net.config.max_seq_len);
                }
                let ghost mid = self.cache.unwrap();
                let ghost first = *self;
                logits = self.decode_batch(next.as_slice(), unit);
                proof {
                    let after = self.cache.unwrap();
                    let longer = Seq::new(n as nat, |j: int| runs[j].push(next@[j]));
                    assert(self.network() == net);
                    assert forall|j: int| 0 <= j < n implies net.slot_runs(*unit, after, j, prompts@[j]@, #[trigger] longer[j])
                        && logits@.chunk(j, net.scores()) == net.scores_after(*unit, (run_prompt(prompts@[j]@) + longer[j])) by {
                        assert(net.slot_runs(*unit, mid, j, prompts@[j]@, runs[j]));
                        assert(first.ends(n as nat)[j] == first.end(j));
                        assert(net.token_ran(*unit, mid, after, j, next@[j], first.ends(n as nat)[j] as int));
                        assert(run_prompt(prompts@[j]@).len() + max_new_tokens <= net.config.max_seq_len);
                        net.slot_runs_more(*unit, mid, after, j, prompts@[j]@, runs[j], next@[j]);
                        assert(logits@.chunk(j, net.scores()) == net.logits(
                            *unit,
                            net.slot_state(*unit, after, j, seq![next@[j]], first.end(j), net.layers.len() as int, 0),
                        ));
                    }
                    assert forall|j: int| 0 <= j < n && done@[j] implies #[trigger] longer[j] == run_along(outputs@[j]@, ran + 1) by {
                        assert(longer[j] =~= run_along(outputs@[j]@, ran + 1));
                    }
                    runs = longer;
                    ran = ran + 1;
                }
            }
            round = round + 1;
        }
        assert forall|j: int| 0 <= j < n implies stops((#[trigger] outputs@[j])@, max_new_tokens as int, eos) by {
            assert(net.waits(*unit, *pick, prompts@[j]@, outputs@[j]@, next@[j], done@[j], max_new_tokens as int, eos));
            if going && !done@[j] {
                assert(runs[j] == outputs@[j]@);
                assert(runs[j].len() == round);
            }
        }
        proof {
            assert forall|j: int| 0 <= j < n implies net.slot_runs(
                *unit,
                self.cache.unwrap(),
                j,
                prompts@[j]@,
                run_along((#[trigger] outputs@[j])@, ran),
            ) by {
                if !done@[j] {
                    assert(runs[j] == outputs@[j]@);
                    assert(run_along(outputs@[j]@, ran) =~= outputs@[j]@);
                }
                assert(net.slot_runs(*unit, self.cache.unwrap(), j, prompts@[j]@, runs[j]));
            }
            if going {
                let j = choose|j: int| 0 <= j < n && !(#[trigger] done@[j]);
                assert(net.waits(*unit, *pick, prompts@[j]@, outputs@[j]@, next@[j], done@[j], max_new_tokens as int, eos));
                assert(!ended(outputs@[j]@, eos));
            } else {
                assert forall|j: int| 0 <= j < n implies ended((#[trigger] outputs@[j])@, eos) by {
                    assert(done@[j]);
                }
            }
            assert(rounds_run(outputs@, max_new_tokens as int, eos, ran));
        }
        outputs
    }

    /// Picks a token for each sequence that has not stopped, from its row of scores, and says
    /// whether any sequence still goes on.
    fn pick_round<F: Fn(Op, &[u32], &[u32], &[u32]) -> Vec<u32>, P: Fn(&[u32]) -> u32>(
        &self,
        prompts: &[&[u32]],
        logits: &Tensor,
        limit: usize,
        pick: &P,
        eos: Option<u32>,
        outputs: &mut Vec<Vec<u32>>,
        next: &mut Vec<u32>,
        done: &mut Vec<bool>,
        Ghost(runs): Ghost<Seq<Seq<u32>>>,
        unit: &F,
    ) -> (open: bool)
        requires
            self.network().scores() == self.config.vocab_size,
            generate::picks_known(*pick, self.network()),
            logits@.wf(),
            logits@.shape == seq![prompts@.len() as usize, self.config.vocab_size],
            old(outputs)@.len() == prompts@.len(),
            old(next)@.len() == prompts@.len(),
            old(done)@.len() == prompts@.len(),
            runs.len() == prompts@.len(),
            forall|j: int| 0 <= j < prompts@.len() ==> (#[trigger] runs[j]).len() < limit,
            forall|j: int| 0 <= j < prompts@.len() ==> #[trigger] logits@.chunk(j, self.network().scores()) == self.network().scores_after(
                *unit,
                (run_prompt(prompts@[j]@) + runs[j]),
            ),
            forall|j: int| 0 <= j < prompts@.len() && !old(done)@[j] ==> #[trigger] runs[j] == old(outputs)@[j]@,
            forall|j: int| 0 <= j < prompts@.len() ==> self.network().waits(
                *unit,
                *pick,
                prompts@[j]@,
                (#[trigger] old(outputs)@[j])@,
                old(next)@[j],
                old(done)@[j],
                limit as int,
                eos,
            ),
        ensures
            final(outputs)@.len() == prompts@.len(),
            final(next)@.len() == prompts@.len(),
            final(done)@.len() == prompts@.len(),
            forall|j: int| 0 <= j < prompts@.len() ==> self.network().waits(
                *unit,
                *pick,
                prompts@[j]@,
                (#[trigger] final(outputs)@[j])@,
                final(next)@[j],
                final(done)@[j],
                limit as int,
                eos,
            ),
            forall|j: int| 0 <= j < prompts@.len() ==> #[trigger] final(next)@[j] < self.network().embedding.vocab_size,
            forall|j: int| 0 <= j < prompts@.len() && !old(done)@[j] ==> final(outputs)@[j]@ == (#[trigger] runs[j]).push(final(next)@[j]),
            forall|j: int| 0 <= j < prompts@.len() && old(done)@[j] ==> (#[trigger] final(outputs)@[j])@ == old(outputs)@[j]@ && final(next)@[j] == old(
                next,
            )@[j] && final(done)@[j],
            open <==> exists|j: int| 0 <= j < prompts@.len() && !(#[trigger] final(done)@[j]),
    {
        let ghost net = self.network();
        let n: usize = prompts.len();
        let mut open: bool = false;
        let mut b: usize = 0;
        while b < n
            invariant
                net == self.network(),
                net.scores() == net.config.vocab_size,
                n == prompts@.len(),
                generate::picks_known(*pick, net),
                logits@.wf(),
                logits@.shape == seq![n, net.config.vocab_size],
                runs.len() == n,
                forall|j: int| 0 <= j < n ==> (#[trigger] runs[j]).len() < limit,
                forall|j: int| 0 <= j < n ==> #[trigger] logits@.chunk(j, net.scores()) == net.scores_after(
                    *unit,
                    (run_prompt(prompts@[j]@) + runs[j]),
                ),
                b <= n,
                outputs@.len() == n,
                next@.len() == n,
                done@.len() == n,
                old(done)@.len() == n,
                forall|j: int| b <= j < n ==> #[trigger] done@[j] == old(done)@[j],
                forall|j: int| b <= j < n && !done@[j] ==> #[trigger] runs[j] == outputs@[j]@,
                forall|j: int| 0 <= j < b && !old(done)@[j] ==> outputs@[j]@ == (#[trigger] runs[j]).push(next@[j]),
                forall|j: int| 0 <= j < n && old(done)@[j] ==> (#[trigger] outputs@[j])@ == old(outputs)@[j]@ && next@[j] == old(next)@[j] && done@[j],
                forall|j: int| 0 <= j < b ==> #[trigger] next@[j] < net.embedding.vocab_size,
                forall|j: int| 0 <= j < n ==> net.waits(
                    *unit,
                    *pick,
                    prompts@[j]@,
                    (#[trigger] outputs@[j])@,
                    next@[j],
                    done@[j],
                    limit as int,
                    eos,
                ),
                open <==> exists|j: int| 0 <= j < b && !(#[trigger] done@[j]),
            decreases n - b,
        {
            let ghost marked = done@;
            proof {
                assert(net.waits(*unit, *pick, prompts@[b as int]@, outputs@[b as int]@, next@[b as int], done@[b as int], limit as int, eos));
            }
            if !done[b] {
                let token: u32 = self.logits_to_token(logits, b, pick);
                let ghost out = outputs@[b as int]@;
                proof {
                    assert(logits@.chunk(b as int, net.scores()) == net.scores_after(
                        *unit,
                        (run_prompt(prompts@[b as int]@) + runs[b as int]),
                    ));
                    assert(runs[b as int] == out);
                    net.follows_more(*unit, *pick, run_prompt(prompts@[b as int]@), out, token);
                }
                let last: bool = match eos {
                    Some(e) => token == e,
                    None => false,
                };
                next[b] = token;
                outputs[b].push(token);
                if last {
                    done[b] = true;
                } else {
                    open = true;
                }
                assert(outputs@[b as int]@ == out.push(token));
                proof {
                    assert(done@ =~= marked.update(b as int, last));
                    if exists|j: int| 0 <= j < b && !(#[trigger] marked[j]) {
                        let j = choose|j: int| 0 <= j < b && !(#[trigger] marked[j]);
                        assert(!done@[j]);
                    }
                    if !last {
                        assert(!done@[b as int]);
                    }
                }
                assert(net.waits(*unit, *pick, prompts@[b as int]@, outputs@[b as int]@, next@[b as int], done@[b as int], limit as int, eos));
            }
            b = b + 1;
        }
        open
    }
}

/// What is known of a continuation while others go on: it has stopped, or no token has ended it.
pub open spec fn unfinished(out: Seq<u32>, limit: int, eos: Option<u32>, done: bool) -> bool {
    &&& out.len() <= limit
    &&& done ==> out.len() > 0 && Some(out.last()) == eos
    &&& forall|j: int| 0 <= j < out.len() - 1 ==> Some(#[trigger] out[j]) != eos
    &&& !done && out.len() > 0 ==> Some(out.last()) != eos
}

/// A way of picking leaves no choice.
pub open spec fn decided<P: Fn(&[u32]) -> u32>(pick: P) -> bool {
    forall|row: Seq<u32>, s: u32, t: u32| #[trigger] generate::picks(pick, row, s) && #[trigger] generate::picks(pick, row, t) ==> s == t
}

impl Network {
    /// Where picking leaves no choice, a prompt has one answer for a limit and an ending token:
    /// batches of any kind and size give the same tokens for it.
    pub proof fn one_answer<F: Fn(Op, &[u32], &[u32], &[u32]) -> Vec<u32>, P: Fn(&[u32]) -> u32>(
        self,
        unit: F,
        pick: P,
        prompt: Seq<u32>,
        limit: int,
        eos: Option<u32>,
        a: Seq<u32>,
        b: Seq<u32>,
    )
        requires
            decided(pick),
            self.follows(unit, pick, run_prompt(prompt), a),
            self.follows(unit, pick, run_prompt(prompt), b),
            stops(a, limit, eos),
            stops(b, limit, eos),
        ensures
            a == b,
    {
        if b.len() <= a.len() {
            self.one_continuation(unit, pick, run_prompt(prompt), a, b);
            if b.len() < a.len() {
                assert(b[b.len() - 1] == a[b.len() - 1]);
                assert(Some(a[b.len() - 1]) != eos);
            }
            assert(a =~= b);
        } else {
            self.one_continuation(unit, pick, run_prompt(prompt), b, a);
            assert(a[a.len() - 1] == b[a.len() - 1]);
            assert(Some(b[a.len() - 1]) != eos);
        }
    }

    /// Where picking leaves no choice, a batch gives for a prompt, up to the token that ends it,
    /// what [`Model::generate`] gives for the prompt alone.
    pub proof fn batch_is_alone<F: Fn(Op, &[u32], &[u32], &[u32]) -> Vec<u32>, P: Fn(&[u32]) -> u32>(
        self,
        unit: F,
        pick: P,
        prompt: Seq<u32>,
        limit: int,
        eos: Option<u32>,
        alone: Seq<u32>,
        batched: Seq<u32>,
    )
        requires
            decided(pick),
            prompt.len() > 0,
            self.follows(unit, pick, prompt, alone),
            alone.len() == limit,
            self.follows(unit, pick, run_prompt(prompt), batched),
            stops(batched, limit, eos),
        ensures
            batched == alone.take(batched.len() as int),
            eos is None ==> batched == alone,
    {
        assert(prompt =~= run_prompt(prompt));
        self.one_continuation(unit, pick, run_prompt(prompt), alone, batched);
        assert(eos is None ==> batched =~= alone);
    }
}

impl Network {
    /// A continuation between two rounds: its tokens follow the prompt, and one that has stopped
    /// still has a token to run along with the others.
    pub open spec fn waits<F: Fn(Op, &[u32], &[u32], &[u32]) -> Vec<u32>, P: Fn(&[u32]) -> u32>(
        self,
        unit: F,
        pick: P,
        prompt: Seq<u32>,
        out: Seq<u32>,
        next: u32,
        done: bool,
        limit: int,
        eos: Option<u32>,
    ) -> bool {
        &&& self.follows(unit, pick, run_prompt(prompt), out)
        &&& unfinished(out, limit, eos, done)
        &&& done ==> next < self.embedding.vocab_size
    }

    /// A slot has run a prompt and tokens after it, and holds all of them.
    pub open spec fn slot_runs<F: Fn(Op, &[u32], &[u32], &[u32]) -> Vec<u32>>(
        self,
        unit: F,
        cache: KvCache,
        slot: int,
        prompt: Seq<u32>,
        run: Seq<u32>,
    ) -> bool {
        &&& cache.seq_lens@[slot] == run_prompt(prompt).len() + run.len()
        &&& self.holds(unit, cache, slot, run_prompt(prompt) + run)
    }

    /// One more token run in a slot.
    pub proof fn slot_runs_more<F: Fn(Op, &[u32], &[u32], &[u32]) -> Vec<u32>>(
        self,
        unit: F,
        before: KvCache,
        after: KvCache,
        slot: int,
        prompt: Seq<u32>,
        run: Seq<u32>,
        token: u32,
    )
        requires
            self.fits(),
            self.cache_fits(after),
            0 <= slot < after.batch,
            self.slot_runs(unit, before, slot, prompt, run),
            self.token_ran(unit, before, after, slot, token, before.seq_lens@[slot] as int),
            after.seq_lens@[slot] == before.seq_lens@[slot] + 1,
            run_prompt(prompt).len() + run.len() + 1 <= self.config.max_seq_len,
        ensures
            self.slot_runs(unit, after, slot, prompt, run.push(token)),
            self.slot_state(unit, after, slot, seq![token], before.seq_lens@[slot] as int, self.layers.len() as int, 0) == self.state(
                unit,
                (run_prompt(prompt) + run.push(token)),
                self.layers.len() as int,
                (run_prompt(prompt) + run.push(token)).len() - 1,
            ),
    {
        let past = run_prompt(prompt) + run;
        assert(run_prompt(prompt) + run.push(token) =~= past + seq![token]);
        self.run_extends(unit, before, after, slot, past, seq![token]);
        assert(self.slot_state(unit, after, slot, seq![token], past.len() as int, self.layers.len() as int, 0) == self.state(
            unit,
            past + seq![token],
            self.layers.len() as int,
            past.len() as int,
        ));
    }
}

} // verus!
