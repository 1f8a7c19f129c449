//! Speculative decoding: a draft model proposes tokens, the target model checks them.
use super::batch;
use super::generate;
use super::model::Model;
use super::network::Network;
use super::sampler;
use super::transformer;
use super::unit;
use super::unit::Op;
use crate::tensor::shape;
use crate::tensor::tensor::Tensor;
use vstd::prelude::*;

verus! {

/// The token that a greedy choice takes from a row of scores.
pub open spec fn greedy_choice(row: Seq<u32>) -> u32 {
    choose|t: u32| sampler::greediest(row, t)
}

/// What is chosen greedily is the greedy choice.
proof fn chosen_greedily(row: Seq<u32>, t: u32)
    requires
        sampler::greediest(row, t),
    ensures
        greedy_choice(row) == t,
{
    sampler::greediest_is_one(row, greedy_choice(row), t);
}

/// How many tokens two sequences begin alike with.
pub open spec fn alike(a: Seq<u32>, b: Seq<u32>) -> nat
    decreases a.len(),
{
    if a.len() == 0 || b.len() == 0 || a[0] != b[0] {
        0
    } else {
        1 + alike(a.skip(1), b.skip(1))
    }
}

/// Sequences begin alike up to the first place where they differ or one ends.
pub proof fn alike_until(a: Seq<u32>, b: Seq<u32>, n: int)
    requires
        0 <= n <= a.len(),
        n <= b.len(),
        forall|i: int| 0 <= i < n ==> #[trigger] a[i] == b[i],
        n == a.len() || n == b.len() || a[n] != b[n],
    ensures
        alike(a, b) == n,
    decreases n,
{
    if n > 0 {
        assert(a[0] == b[0]);
        assert forall|i: int| 0 <= i < n - 1 implies #[trigger] a.skip(1)[i] == b.skip(1)[i] by {
            assert(a[i + 1] == b[i + 1]);
        }
        alike_until(a.skip(1), b.skip(1), n - 1);
    }
}

/// Giving out tokens one by one stops within them: there is room for no more, or one of them
/// ends the sequence.
pub open spec fn stops_within(tokens: Seq<u32>, room: int, eos: Option<u32>) -> bool {
    tokens.len() >= room || exists|j: int| 0 <= j < tokens.len() && Some(#[trigger] tokens[j]) == eos
}

impl Network {
    /// The `n` tokens that greedy choices put after a sequence.
    pub open spec fn greedy_run<F: Fn(Op, &[u32], &[u32], &[u32]) -> Vec<u32>>(self, unit: F, text: Seq<u32>, n: nat) -> Seq<u32>
        decreases n,
    {
        if n == 0 {
            Seq::empty()
        } else {
            let before = self.greedy_run(unit, text, (n - 1) as nat);
            before.push(greedy_choice(self.scores_after(unit, text + before)))
        }
    }

    /// How many proposals the target accepts, of how many, in the rounds that follow the first
    /// `n` tokens after a prompt. In each round the draft proposes `k` tokens; the target accepts
    /// those that it would have chosen itself, up to the first that it would not. Where it
    /// accepts all of them and the run goes on, one more proposal counts.
    #[verifier::opaque]
    pub open spec fn counts<F: Fn(Op, &[u32], &[u32], &[u32]) -> Vec<u32>>(
        self,
        draft: Network,
        unit: F,
        prompt: Seq<u32>,
        k: nat,
        limit: nat,
        eos: Option<u32>,
        n: nat,
    ) -> (nat, nat)
        decreases limit - n,
    {
        let text = prompt + self.greedy_run(unit, prompt, n);
        let own = self.greedy_run(unit, text, k + 1);
        let ahead = draft.greedy_run(unit, text, k + 1);
        let agreed = alike(own.take(k as int), ahead.take(k as int));
        if n >= limit {
            (0, 0)
        } else if stops_within(own.take(agreed as int), limit - n, eos) {
            (agreed, k)
        } else {
            let more: nat = if agreed == k {
                1
            } else {
                0
            };
            let hit: nat = if agreed == k && own[k as int] == ahead[k as int] {
                1
            } else {
                0
            };
            let rest = if stops_within(seq![own[agreed as int]], limit - n - agreed, eos) {
                (0, 0)
            } else {
                self.counts(draft, unit, prompt, k, limit, eos, n + agreed + 1)
            };
            (agreed + hit + rest.0, k + more + rest.1)
        }
    }

    /// A draft that is the target itself has every proposal accepted.
    pub proof fn same_draft_is_accepted<F: Fn(Op, &[u32], &[u32], &[u32]) -> Vec<u32>>(
        self,
        unit: F,
        prompt: Seq<u32>,
        k: nat,
        limit: nat,
        eos: Option<u32>,
        n: nat,
    )
        ensures
            self.counts(self, unit, prompt, k, limit, eos, n).0 == self.counts(self, unit, prompt, k, limit, eos, n).1,
        decreases limit - n,
    {
        reveal(Network::counts);
        if n < limit {
            let text = prompt + self.greedy_run(unit, prompt, n);
            let own = self.greedy_run(unit, text, k + 1);
            self.greedy_run_len(unit, text, k + 1);
            alike_until(own.take(k as int), own.take(k as int), k as int);
            if n + k < limit {
                self.same_draft_is_accepted(unit, prompt, k, limit, eos, n + k + 1);
            }
        }
    }

    /// A greedy run has as many tokens as it is asked for.
    pub proof fn greedy_run_len<F: Fn(Op, &[u32], &[u32], &[u32]) -> Vec<u32>>(self, unit: F, text: Seq<u32>, n: nat)
        ensures
            self.greedy_run(unit, text, n).len() == n,
        decreases n,
    {
        if n > 0 {
            self.greedy_run_len(unit, text, (n - 1) as nat);
        }
    }

    /// A shorter greedy run is the beginning of a longer one.
    proof fn greedy_run_begins<F: Fn(Op, &[u32], &[u32], &[u32]) -> Vec<u32>>(self, unit: F, text: Seq<u32>, m: nat, n: nat)
        requires
            m <= n,
        ensures
            self.greedy_run(unit, text, n).len() == n,
            self.greedy_run(unit, text, n).take(m as int) == self.greedy_run(unit, text, m),
        decreases n,
    {
        self.greedy_run_len(unit, text, n);
        self.greedy_run_len(unit, text, m);
        if m < n {
            self.greedy_run_begins(unit, text, m, (n - 1) as nat);
            let before = self.greedy_run(unit, text, (n - 1) as nat);
            assert(self.greedy_run(unit, text, n).take(m as int) =~= before.take(m as int));
        } else {
            assert(self.greedy_run(unit, text, n).take(m as int) =~= self.greedy_run(unit, text, m));
        }
    }

    /// Tokens of which each is the greedy choice after those before it are a greedy run.
    proof fn greedy_is_run<F: Fn(Op, &[u32], &[u32], &[u32]) -> Vec<u32>>(self, unit: F, text: Seq<u32>, out: Seq<u32>)
        requires
            self.greedy_after(unit, text, out),
        ensures
            out == self.greedy_run(unit, text, out.len()),
        decreases out.len(),
    {
        if out.len() > 0 {
            let n = out.len() - 1;
            self.greedy_beginning(unit, text, out, n);
            assert(out.take(n).len() == n);
            self.greedy_is_run(unit, text, out.take(n));
            assert(sampler::greediest(self.scores_after(unit, text + out.take(n)), out[n]));
            chosen_greedily(self.scores_after(unit, text + out.take(n)), out[n]);
            assert(out =~= out.take(n).push(out[n]));
        } else {
            assert(out =~= Seq::empty());
        }
    }

    /// What follows greedily after the beginning of a continuation follows greedily.
    proof fn greedy_rest<F: Fn(Op, &[u32], &[u32], &[u32]) -> Vec<u32>>(self, unit: F, prompt: Seq<u32>, out: Seq<u32>, more: Seq<u32>)
        requires
            self.greedy_after(unit, prompt, out + more),
        ensures
            self.greedy_after(unit, prompt + out, more),
    {
        assert forall|j: int| 0 <= j < more.len() implies sampler::greediest(
            self.scores_after(unit, prompt + out + more.take(j)),
            #[trigger] more[j],
        ) by {
            let all = out + more;
            assert(all[out.len() + j] == more[j]);
            assert(prompt + all.take(out.len() + j) =~= prompt + out + more.take(j));
        }
    }

    /// Each of the tokens is the greedy choice after the prompt and the tokens before it.
    pub open spec fn greedy_after<F: Fn(Op, &[u32], &[u32], &[u32]) -> Vec<u32>>(self, unit: F, prompt: Seq<u32>, out: Seq<u32>) -> bool {
        forall|j: int| 0 <= j < out.len() ==> sampler::greediest(self.scores_after(unit, prompt + out.take(j)), #[trigger] out[j])
    }

    /// One more greedy token.
    pub proof fn greedy_more<F: Fn(Op, &[u32], &[u32], &[u32]) -> Vec<u32>>(self, unit: F, prompt: Seq<u32>, out: Seq<u32>, token: u32)
        requires
            self.greedy_after(unit, prompt, out),
            sampler::greediest(self.scores_after(unit, prompt + out), token),
        ensures
            self.greedy_after(unit, prompt, out.push(token)),
    {
        let longer = out.push(token);
        assert forall|j: int| 0 <= j < longer.len() implies sampler::greediest(
            self.scores_after(unit, prompt + longer.take(j)),
            #[trigger] longer[j],
        ) by {
            if j < out.len() {
                assert(longer.take(j) =~= out.take(j));
                assert(longer[j] == out[j]);
            } else {
                assert(longer.take(j) =~= out);
            }
        }
    }

    /// Greedy decoding is determined: the shorter of two greedy continuations of one prompt is
    /// the beginning of the longer.
    pub proof fn one_greedy_continuation<F: Fn(Op, &[u32], &[u32], &[u32]) -> Vec<u32>>(
        self,
        unit: F,
        prompt: Seq<u32>,
        a: Seq<u32>,
        b: Seq<u32>,
    )
        requires
            self.greedy_after(unit, prompt, a),
            self.greedy_after(unit, prompt, b),
            b.len() <= a.len(),
        ensures
            b == a.take(b.len() as int),
        decreases b.len(),
    {
        if b.len() > 0 {
            let n = b.len() - 1;
            assert forall|j: int| 0 <= j < n implies sampler::greediest(
                self.scores_after(unit, prompt + b.drop_last().take(j)),
                #[trigger] b.drop_last()[j],
            ) by {
                assert(b.drop_last().take(j) =~= b.take(j));
                assert(b.drop_last()[j] == b[j]);
            }
            self.one_greedy_continuation(unit, prompt, a, b.drop_last());
            assert(b.take(n) =~= b.drop_last());
            assert(sampler::greediest(self.scores_after(unit, prompt + a.take(n)), a[n]));
            assert(sampler::greediest(self.scores_after(unit, prompt + b.take(n)), b[n]));
            sampler::greediest_is_one(self.scores_after(unit, prompt + a.take(n)), a[n], b[n]);
            assert(b =~= b.drop_last().push(b[n]));
            assert(a.take(b.len() as int) =~= a.take(n).push(a[n]));
        } else {
            assert(b =~= a.take(0));
        }
    }

    /// What the model generates greedily after a prompt is a greedy continuation.
    pub proof fn greedy_follows<F: Fn(Op, &[u32], &[u32], &[u32]) -> Vec<u32>, P: Fn(&[u32]) -> u32>(
        self,
        unit: F,
        pick: P,
        prompt: Seq<u32>,
        out: Seq<u32>,
    )
        requires
            forall|row: Seq<u32>, t: u32| #[trigger] generate::picks(pick, row, t) ==> sampler::greediest(row, t),
            self.follows(unit, pick, prompt, out),
        ensures
            self.greedy_after(unit, prompt, out),
    {
        assert forall|j: int| 0 <= j < out.len() implies sampler::greediest(self.scores_after(unit, prompt + out.take(j)), #[trigger] out[j]) by {
            assert(generate::picks(pick, self.scores_after(unit, prompt + out.take(j)), out[j]));
        }
    }

    /// A run with a draft gives, up to the token that ends it, what [`Model::generate`] gives
    /// greedily for the prompt alone: all of it, where no token ends it.
    pub proof fn draft_changes_nothing<F: Fn(Op, &[u32], &[u32], &[u32]) -> Vec<u32>, P: Fn(&[u32]) -> u32>(
        self,
        unit: F,
        pick: P,
        prompt: Seq<u32>,
        limit: int,
        eos: Option<u32>,
        alone: Seq<u32>,
        drafted: Seq<u32>,
    )
        requires
            forall|row: Seq<u32>, t: u32| #[trigger] generate::picks(pick, row, t) ==> sampler::greediest(row, t),
            self.follows(unit, pick, prompt, alone),
            alone.len() == limit,
            self.greedy_after(unit, prompt, drafted),
            batch::stops(drafted, limit, eos),
        ensures
            drafted == alone.take(drafted.len() as int),
            eos is None ==> drafted == alone,
    {
        self.greedy_follows(unit, pick, prompt, alone);
        self.one_greedy_continuation(unit, prompt, alone, drafted);
        assert(eos is None ==> drafted =~= alone);
    }
}

impl Model {
    /// A model with these parts, whose first slot is filled up to `pos`.
    pub open spec fn stands(self, net: Network, pos: int) -> bool {
        &&& self.network() == net
        &&& self.cache matches Some(c) && net.cache_fits(c) && 0 < c.batch
        &&& self.end(0) == pos
    }

    /// The first slot holds a text and nothing after it.
    pub open spec fn has_run<F: Fn(Op, &[u32], &[u32], &[u32]) -> Vec<u32>>(self, unit: F, text: Seq<u32>) -> bool {
        &&& self.cache is Some
        &&& self.end(0) == text.len()
        &&& self.network().holds(unit, self.cache.unwrap(), 0, text)
    }

    /// Runs tokens in the first slot and gives the scores of the token after the last.
    fn run_for_scores<F: Fn(Op, &[u32], &[u32], &[u32]) -> Vec<u32>>(&mut self, tokens: &[u32], unit: &F, Ghost(pos): Ghost<int>) -> (row: Vec<u32>)
        requires
            unit::lawful(*unit),
            old(self).stands(old(self).network(), pos),
            old(self).network().fits(),
            old(self).network().knows(tokens@),
            old(self).network().room(tokens@.len() as usize),
            old(self).network().scores() == old(self).config.vocab_size,
            tokens@.len() > 0,
            pos + tokens@.len() <= old(self).config.max_seq_len,
        ensures
            final(self).stands(old(self).network(), pos + tokens@.len()),
            final(self).layers == old(self).layers,
            final(self).bit_layers == old(self).bit_layers,
            row@.len() == old(self).config.vocab_size,
            forall|past: Seq<u32>|
                past.len() == pos && #[trigger] old(self).network().holds(*unit, old(self).cache.unwrap(), 0, past) ==> {
                    let longer = past + tokens@;
                    &&& old(self).network().holds(*unit, final(self).cache.unwrap(), 0, longer)
                    &&& row@ == old(self).network().scores_after(*unit, longer)
                },
    {
        let ghost net = self.network();
        let ghost first = *self;
        let n: usize = tokens.len();
        assert(n == tokens@.len());
        let logits: Tensor = self.forward_slot(tokens, 0, unit);
        proof {
            shape::product_two(logits@.shape[0], logits@.shape[1]);
            assert((n - 1 + 1) * self.config.vocab_size <= logits@.shape[0] * logits@.shape[1]) by (nonlinear_arith)
                requires
                    n == logits@.shape[0],
                    self.config.vocab_size == logits@.shape[1],
            ;
        }
        let row: Vec<u32> = logits.chunk_lanes(n - 1, self.config.vocab_size);
        proof {
            assert forall|past: Seq<u32>|
                past.len() == pos && #[trigger] net.holds(*unit, first.cache.unwrap(), 0, past) implies {
                let longer = past + tokens@;
                &&& net.holds(*unit, self.cache.unwrap(), 0, longer)
                &&& row@ == net.scores_after(*unit, longer)
            } by {
                let longer = past + tokens@;
                net.run_extends(*unit, first.cache.unwrap(), self.cache.unwrap(), 0, past, tokens@);
                assert(first.last_row(*unit, 0, tokens@, self.cache, n - 1) == net.state(*unit, longer, net.layers.len() as int, longer.len() - 1));
            }
        }
        row
    }
}

/// Lets a draft propose `k` tokens, each the greedy choice after those before it, and gives the
/// scores after the last.
fn propose<F: Fn(Op, &[u32], &[u32], &[u32]) -> Vec<u32>>(
    draft: &mut Model,
    row: Vec<u32>,
    k: usize,
    unit: &F,
    Ghost(text): Ghost<Seq<u32>>,
) -> (r: (Vec<u32>, Vec<u32>))
    requires
        unit::lawful(*unit),
        old(draft).stands(old(draft).network(), text.len() as int),
        old(draft).network().holds(*unit, old(draft).cache.unwrap(), 0, text),
        row@ == old(draft).network().scores_after(*unit, text),
        old(draft).network().fits(),
        old(draft).network().room(1),
        old(draft).network().scores() == old(draft).config.vocab_size,
        old(draft).embedding.vocab_size == old(draft).config.vocab_size,
        0 < row@.len() == old(draft).config.vocab_size <= u32::MAX,
        text.len() + k <= old(draft).config.max_seq_len,
    ensures
        final(draft).stands(old(draft).network(), text.len() + k),
        old(draft).network().holds(*unit, final(draft).cache.unwrap(), 0, text + r.0@),
        r.0@ == old(draft).network().greedy_run(*unit, text, k as nat),
        r.1@ == old(draft).network().scores_after(*unit, text + r.0@),
        final(draft).layers == old(draft).layers,
        final(draft).bit_layers == old(draft).bit_layers,
        r.0@.len() == k,
        forall|i: int| 0 <= i < k ==> (#[trigger] r.0@[i]) < old(draft).config.vocab_size,
        r.1@.len() == old(draft).config.vocab_size,
{
    let ghost net = draft.network();
    let mut list: Vec<u32> = Vec::new();
    let mut scores: Vec<u32> = row;
    let mut i: usize = 0;
    assert(text + list@ =~= text);
    while i < k
        invariant
            unit::lawful(*unit),
            net == old(draft).network(),
            draft.layers == old(draft).layers,
            draft.bit_layers == old(draft).bit_layers,
            draft.stands(net, text.len() + i),
            net.holds(*unit, draft.cache.unwrap(), 0, text + list@),
            list@ == net.greedy_run(*unit, text, i as nat),
            scores@ == net.scores_after(*unit, text + list@),
            net.fits(),
            net.room(1),
            net.scores() == net.config.vocab_size,
            net.embedding.vocab_size == net.config.vocab_size,
            0 < scores@.len() == net.config.vocab_size <= u32::MAX,
            text.len() + k <= net.config.max_seq_len,
            i <= k,
            list@.len() == i,
            forall|j: int| 0 <= j < i ==> (#[trigger] list@[j]) < net.config.vocab_size,
        decreases k - i,
    {
        let ghost before = list@;
        let t: u32 = sampler::greedy_sample(scores.as_slice());
        list.push(t);
        let one: Vec<u32> = vec![t];
        proof {
            chosen_greedily(scores@, t);
            assert(one@ =~= seq![t]);
            assert(text + before + one@ =~= text + list@);
        }
        scores = draft.run_for_scores(one.as_slice(), unit, Ghost(text.len() + i));
        i = i + 1;
    }
    (list, scores)
}

/// The scores from which the target chooses the token at place `i` of a block that it has run:
/// those after the token before it.
pub open spec fn scores_at(row: Seq<u32>, verify: Seq<Seq<u32>>, i: int) -> Seq<u32> {
    if i == 0 {
        row
    } else {
        verify[i - 1]
    }
}

/// Counts the proposals that agree with the target's own choices, up to the first that does not,
/// and gives the target's choice for the place after them.
fn agreement(row: &[u32], verify: &Tensor, proposed: &[u32], vocab: usize) -> (r: (usize, u32))
    requires
        verify@.wf(),
        verify@.shape == seq![proposed@.len() as usize, vocab],
        row@.len() == vocab,
        0 < vocab <= u32::MAX,
    ensures
        r.0 <= proposed@.len(),
        forall|i: int| 0 <= i < r.0 ==> sampler::greediest(scores_at(row@, transformer::tensor_rows(verify@, vocab as int), i), #[trigger] proposed@[i]),
        sampler::greediest(scores_at(row@, transformer::tensor_rows(verify@, vocab as int), r.0 as int), r.1),
        r.1 < vocab,
        r.0 < proposed@.len() ==> r.1 != proposed@[r.0 as int],
{
    let n: usize = proposed.len();
    let ghost rows = transformer::tensor_rows(verify@, vocab as int);
    proof {
        assert(n == proposed@.len());
        shape::product_two(n, vocab);
    }
    let mut i: usize = 0;
    let mut choice: u32 = sampler::greedy_sample(row);
    while i < n && choice == proposed[i]
        invariant
            n == proposed@.len(),
            verify@.wf(),
            verify@.shape == seq![n, vocab],
            verify@.count() == n * vocab,
            row@.len() == vocab,
            0 < vocab <= u32::MAX,
            rows == transformer::tensor_rows(verify@, vocab as int),
            i <= n,
            forall|j: int| 0 <= j < i ==> sampler::greediest(scores_at(row@, rows, j), #[trigger] proposed@[j]),
            sampler::greediest(scores_at(row@, rows, i as int), choice),
            choice < vocab,
        decreases n - i,
    {
        proof {
            assert((i + 1) * vocab <= n * vocab) by (nonlinear_arith)
                requires
                    i < n,
            ;
        }
        let scores: Vec<u32> = verify.chunk_lanes(i, vocab);
        choice = sampler::greedy_sample(scores.as_slice());
        i = i + 1;
    }
    (i, choice)
}

/// Adds tokens to an output until it has reached the limit or a token ends it, and says whether
/// it has stopped.
fn emit(output: &mut Vec<u32>, tokens: &[u32], limit: usize, eos: Option<u32>) -> (stop: bool)
    requires
        old(output)@.len() < limit,
        forall|j: int| 0 <= j < old(output)@.len() ==> Some(#[trigger] old(output)@[j]) != eos,
    ensures
        old(output)@.len() <= final(output)@.len() <= old(output)@.len() + tokens@.len(),
        final(output)@ == old(output)@ + tokens@.take(final(output)@.len() - old(output)@.len()),
        stop <==> stops_within(tokens@, limit - old(output)@.len(), eos),
        stop ==> batch::stops(final(output)@, limit as int, eos),
        !stop ==> {
            &&& final(output)@.len() < limit
            &&& final(output)@ == old(output)@ + tokens@
            &&& forall|j: int| 0 <= j < final(output)@.len() ==> Some(#[trigger] final(output)@[j]) != eos
        },
{
    let n: usize = tokens.len();
    let ghost before = output@;
    let mut i: usize = 0;
    assert(output@ =~= before + tokens@.take(0));
    while i < n
        invariant
            before == old(output)@,
            n == tokens@.len(),
            i <= n,
            output@ == before + tokens@.take(i as int),
            output@.len() < limit,
            forall|j: int| 0 <= j < output@.len() ==> Some(#[trigger] output@[j]) != eos,
        decreases n - i,
    {
        let t: u32 = tokens[i];
        output.push(t);
        i = i + 1;
        assert(output@ =~= before + tokens@.take(i as int));
        let last: bool = match eos {
            Some(e) => t == e,
            None => false,
        };
        if last || output.len() >= limit {
            assert(tokens@[i - 1] == t);
            return true;
        }
    }
    assert(tokens@.take(n as int) =~= tokens@);
    assert forall|j: int| 0 <= j < tokens@.len() implies Some(#[trigger] tokens@[j]) != eos by {
        assert(output@[before.len() + j] == tokens@[j]);
    }
    false
}

impl Network {
    /// The target's choices in a round are the greedy choices, one after the other.
    proof fn round_is_greedy<F: Fn(Op, &[u32], &[u32], &[u32]) -> Vec<u32>>(
        self,
        unit: F,
        prompt: Seq<u32>,
        output: Seq<u32>,
        row: Seq<u32>,
        rows: Seq<Seq<u32>>,
        proposed: Seq<u32>,
        i: int,
    )
        requires
            row == self.scores_after(unit, prompt + output),
            rows.len() == proposed.len(),
            forall|j: int| 0 <= j < proposed.len() ==> #[trigger] rows[j] == self.logits(
                unit,
                self.state(unit, prompt + output + proposed, self.layers.len() as int, (prompt + output).len() + j),
            ),
            0 <= i <= proposed.len(),
            forall|j: int| 0 <= j < i ==> sampler::greediest(scores_at(row, rows, j), #[trigger] proposed[j]),
            self.greedy_after(unit, prompt, output),
        ensures
            self.greedy_after(unit, prompt, output + proposed.take(i)),
            scores_at(row, rows, i) == self.scores_after(unit, prompt + (output + proposed.take(i))),
        decreases i,
    {
        let text = prompt + output;
        if i == 0 {
            assert(output + proposed.take(0) =~= output);
        } else {
            self.round_is_greedy(unit, prompt, output, row, rows, proposed, i - 1);
            assert(sampler::greediest(scores_at(row, rows, i - 1), proposed[i - 1]));
            self.greedy_more(unit, prompt, output + proposed.take(i - 1), proposed[i - 1]);
            assert((output + proposed.take(i - 1)).push(proposed[i - 1]) =~= output + proposed.take(i));
            let short = text + proposed.take(i);
            assert(short =~= prompt + (output + proposed.take(i)));
            assert(rows[i - 1] == self.logits(unit, self.state(unit, text + proposed, self.layers.len() as int, text.len() + (i - 1))));
            assert forall|q: int| 0 <= q <= short.len() - 1 implies #[trigger] short[q] == (text + proposed)[q] by {}
            self.state_looks_back(unit, short, text + proposed, self.layers.len() as int, short.len() - 1);
        }
    }

    /// What a round adds to the counts, given what was proposed, how many of the proposals agreed
    /// and what the target chose after them.
    proof fn round_counts<F: Fn(Op, &[u32], &[u32], &[u32]) -> Vec<u32>>(
        self,
        draft: Network,
        unit: F,
        prompt: Seq<u32>,
        k: nat,
        limit: nat,
        eos: Option<u32>,
        output: Seq<u32>,
        proposed: Seq<u32>,
        agreed: int,
        choice: u32,
    )
        requires
            output.len() < limit,
            proposed == draft.greedy_run(unit, prompt + output, k),
            0 <= agreed <= k,
            proposed.len() == k,
            agreed < k ==> choice != proposed[agreed],
            self.greedy_after(unit, prompt, (output + proposed.take(agreed)).push(choice)),
        ensures
            ({
                let n = output.len();
                let counts = self.counts(draft, unit, prompt, k, limit, eos, n);
                let stopped = stops_within(proposed.take(agreed), limit - n, eos);
                let last = stops_within(seq![choice], limit - n - agreed, eos);
                let more: nat = if agreed == k { 1 } else { 0 };
                let hit: nat = if agreed == k && greedy_choice(draft.scores_after(unit, prompt + output + proposed)) == choice { 1 } else { 0 };
                let rest = self.counts(draft, unit, prompt, k, limit, eos, (n + agreed + 1) as nat);
                &&& stopped ==> counts.0 == agreed && counts.1 == k
                &&& !stopped && last ==> counts.0 == agreed + hit && counts.1 == k + more
                &&& !stopped && !last ==> counts.0 == agreed + hit + rest.0 && counts.1 == k + more + rest.1
            }),
    {
        reveal(Network::counts);
        let mine = proposed.take(agreed).push(choice);
        assert((output + proposed.take(agreed)).push(choice) =~= output + mine);
        self.greedy_beginning(unit, prompt, output + mine, output.len() as int);
        assert((output + mine).take(output.len() as int) =~= output);
        self.greedy_is_run(unit, prompt, output);
        self.greedy_rest(unit, prompt, output, mine);
        let text = prompt + output;
        self.greedy_is_run(unit, text, mine);
        let own = self.greedy_run(unit, text, k + 1);
        let ahead = draft.greedy_run(unit, text, k + 1);
        self.greedy_run_begins(unit, text, mine.len(), k + 1);
        draft.greedy_run_begins(unit, text, k, k + 1);
        assert(own[agreed] == own.take(agreed + 1)[agreed]);
        assert forall|i: int| 0 <= i < agreed implies #[trigger] own.take(k as int)[i] == ahead.take(k as int)[i] by {
            assert(own[i] == own.take(agreed + 1)[i]);
            assert(mine[i] == proposed[i]);
        }
        alike_until(own.take(k as int), ahead.take(k as int), agreed);
        assert(own.take(agreed) =~= proposed.take(agreed));
        assert(ahead[k as int] == greedy_choice(draft.scores_after(unit, text + proposed)));
        assert(ahead.take(k as int) == proposed);
    }

    /// No counts are left where the limit is reached.
    proof fn no_counts_left<F: Fn(Op, &[u32], &[u32], &[u32]) -> Vec<u32>>(
        self,
        draft: Network,
        unit: F,
        prompt: Seq<u32>,
        k: nat,
        limit: nat,
        eos: Option<u32>,
        n: nat,
    )
        requires
            limit <= n,
        ensures
            self.counts(draft, unit, prompt, k, limit, eos, n) == (0nat, 0nat),
    {
        reveal(Network::counts);
    }

    /// A beginning of a greedy continuation is one.
    proof fn greedy_beginning<F: Fn(Op, &[u32], &[u32], &[u32]) -> Vec<u32>>(self, unit: F, prompt: Seq<u32>, out: Seq<u32>, n: int)
        requires
            self.greedy_after(unit, prompt, out),
            0 <= n <= out.len(),
        ensures
            self.greedy_after(unit, prompt, out.take(n)),
    {
        let short = out.take(n);
        assert forall|j: int| 0 <= j < short.len() implies sampler::greediest(
            self.scores_after(unit, prompt + short.take(j)),
            #[trigger] short[j],
        ) by {
            assert(short.take(j) =~= out.take(j));
            assert(short[j] == out[j]);
        }
    }

    /// The model can decode speculatively: `count` tokens after the prompt, `k` ahead.
    pub open spec fn usable(self, prompt: Seq<u32>, count: int, k: usize) -> bool {
        &&& self.fits()
        &&& self.scores() == self.config.vocab_size
        &&& self.embedding.vocab_size == self.config.vocab_size
        &&& 0 < self.config.vocab_size <= u32::MAX
        &&& self.knows(prompt)
        &&& self.room(1)
        &&& self.room(k)
        &&& self.room(prompt.len() as usize)
        &&& prompt.len() + count + k <= self.config.max_seq_len
    }
}

/// Decodes greedily with a draft: the draft proposes tokens, the target checks them together,
/// and only those that it would have chosen itself are kept.
pub struct SpeculativeDecoder<'a> {
    pub target: &'a mut Model,
    pub draft: &'a mut Model,
    /// How many tokens the draft proposes at a time.
    pub k: usize,
    /// How many proposals the target has accepted.
    pub accepted: u64,
    /// How many tokens the draft has proposed.
    pub proposed: u64,
    /// How many tokens the target has checked.
    pub target_tokens: u64,
}

impl<'a> SpeculativeDecoder<'a> {
    /// A decoder that lets the draft propose `k` tokens at a time, at least one.
    pub fn new(target: &'a mut Model, draft: &'a mut Model, k: usize) -> (r: SpeculativeDecoder<'a>)
        ensures
            *r.target == *old(target),
            *r.draft == *old(draft),
            *final(r.target) == *final(target),
            *final(r.draft) == *final(draft),
            r.k == (if k > 1 { k } else { 1 }),
            r.accepted == 0,
            r.proposed == 0,
            r.target_tokens == 0,
    {
        let k: usize = if k > 1 { k } else { 1 };
        SpeculativeDecoder { target, draft, k, accepted: 0, proposed: 0, target_tokens: 0 }
    }

    /// How many tokens the target has checked.
    pub fn target_tokens(&self) -> (r: u64)
        ensures
            r == self.target_tokens,
    {
        self.target_tokens
    }

    /// How many proposals the target has accepted, of how many.
    pub fn acceptance(&self) -> (r: (u64, u64))
        ensures
            r == (self.accepted, self.proposed),
    {
        (self.accepted, self.proposed)
    }

    /// Generates up to `max_new_tokens` tokens after a prompt, from the beginning, and stops at
    /// `eos`. The tokens are the target's own greedy choices, whatever the draft proposes.
    #[verifier::spinoff_prover]
    #[verifier::rlimit(40)]
    pub fn generate<F: Fn(Op, &[u32], &[u32], &[u32]) -> Vec<u32>>(
        &mut self,
        prompt: &[u32],
        max_new_tokens: usize,
        eos: Option<u32>,
        unit: &F,
    ) -> (output: Vec<u32>)
        requires
            unit::lawful(*unit),
            old(self).k > 0,
            old(self).target.network().usable(prompt@, max_new_tokens as int, old(self).k),
            old(self).draft.network().usable(prompt@, max_new_tokens as int, old(self).k),
            old(self).target.config.vocab_size == old(self).draft.config.vocab_size,
            old(self).target.stands(old(self).target.network(), old(self).target.end(0)),
            old(self).draft.stands(old(self).draft.network(), old(self).draft.end(0)),
            old(self).proposed + max_new_tokens * (old(self).k + 1) <= u64::MAX,
            old(self).target_tokens + max_new_tokens * (old(self).k + 1) <= u64::MAX,
            old(self).accepted <= old(self).proposed,
        ensures
            *final(final(self).target) == *final(old(self).target),
            *final(final(self).draft) == *final(old(self).draft),
            final(self).target.network() == old(self).target.network(),
            final(self).draft.network() == old(self).draft.network(),
            final(self).target.layers == old(self).target.layers,
            final(self).target.bit_layers == old(self).target.bit_layers,
            final(self).draft.layers == old(self).draft.layers,
            final(self).draft.bit_layers == old(self).draft.bit_layers,
            final(self).k == old(self).k,
            final(self).accepted <= final(self).proposed,
            ({
                let counts = old(self).target.network().counts(
                    old(self).draft.network(),
                    *unit,
                    prompt@,
                    old(self).k as nat,
                    if prompt@.len() == 0 { 0 } else { max_new_tokens as nat },
                    eos,
                    0,
                );
                &&& final(self).accepted == old(self).accepted + counts.0
                &&& final(self).proposed == old(self).proposed + counts.1
                &&& final(self).target_tokens == old(self).target_tokens + counts.1
            }),
            prompt@.len() == 0 ==> output@.len() == 0,
            prompt@.len() > 0 ==> batch::stops(output@, max_new_tokens as int, eos),
            old(self).target.network().greedy_after(*unit, prompt@, output@),
            final(self).target.stands(final(self).target.network(), final(self).target.end(0)),
            final(self).draft.stands(final(self).draft.network(), final(self).draft.end(0)),
            prompt@.len() == 0 || max_new_tokens == 0 ==> final(self).target.cache == old(self).target.cache && final(self).draft.cache == old(self).draft.cache,
            prompt@.len() > 0 && max_new_tokens > 0 ==> exists|text: Seq<u32>| #[trigger]
                (prompt@ + output@).is_prefix_of(text) && final(self).target.has_run(*unit, text) && final(self).draft.has_run(*unit, text),
    {
        let mut output: Vec<u32> = Vec::new();
        let ghost net = self.target.network();
        let ghost dnet = self.draft.network();
        if prompt.len() == 0 || max_new_tokens == 0 {
            proof {
                net.no_counts_left(dnet, *unit, prompt@, self.k as nat, 0, eos, 0);
            }
            return output;
        }
        let ghost limit = max_new_tokens as nat;
        let ghost tfin = *final(self.target);
        let ghost dfin = *final(self.draft);
        let vocab: usize = self.target.config.vocab_size;
        let k: usize = self.k;
        let prompt_len: usize = prompt.len();
        self.target.clear_cache();
        self.draft.clear_cache();
        proof {
            net.nothing_holds(*unit, self.target.cache.unwrap(), 0);
            dnet.nothing_holds(*unit, self.draft.cache.unwrap(), 0);
        }
        let mut row: Vec<u32> = self.target.run_for_scores(prompt, unit, Ghost(0));
        let mut draft_row: Vec<u32> = self.draft.run_for_scores(prompt, unit, Ghost(0));
        let ghost mut text: Seq<u32> = prompt@;
        proof {
            assert(Seq::<u32>::empty() + prompt@ =~= prompt@);
            assert(prompt@ + output@ =~= prompt@);
            assert(max_new_tokens * (k + 1) - output@.len() * (k + 1) >= 0) by (nonlinear_arith)
                requires
                    output@.len() == 0,
            ;
        }
        loop
            invariant
                unit::lawful(*unit),
                net.usable(prompt@, max_new_tokens as int, k),
                dnet.usable(prompt@, max_new_tokens as int, k),
                net.config.vocab_size == vocab,
                dnet.config.vocab_size == vocab,
                limit == max_new_tokens,
                net == old(self).target.network(),
                dnet == old(self).draft.network(),
                self.target.layers == old(self).target.layers,
                self.target.bit_layers == old(self).target.bit_layers,
                self.draft.layers == old(self).draft.layers,
                self.draft.bit_layers == old(self).draft.bit_layers,
                k == self.k,
                k == old(self).k,
                0 < k,
                prompt_len == prompt@.len(),
                0 < prompt_len,
                *final(self.target) == tfin,
                *final(self.draft) == dfin,
                tfin == *final(old(self).target),
                dfin == *final(old(self).draft),
                output@.len() < max_new_tokens,
                self.target.stands(net, prompt_len + output@.len()),
                self.draft.stands(dnet, prompt_len + output@.len()),
                row@.len() == vocab,
                draft_row@.len() == vocab,
                text == prompt@ + output@,
                net.holds(*unit, self.target.cache.unwrap(), 0, text),
                dnet.holds(*unit, self.draft.cache.unwrap(), 0, text),
                row@ == net.scores_after(*unit, text),
                draft_row@ == dnet.scores_after(*unit, text),
                forall|j: int| 0 <= j < output@.len() ==> Some(#[trigger] output@[j]) != eos,
                net.greedy_after(*unit, prompt@, output@),
                self.accepted <= self.proposed,
                self.accepted + net.counts(dnet, *unit, prompt@, k as nat, limit, eos, output@.len()).0 == old(self).accepted + net.counts(dnet, *unit, prompt@, k as nat, limit, eos, 0).0,
                self.proposed + net.counts(dnet, *unit, prompt@, k as nat, limit, eos, output@.len()).1 == old(self).proposed + net.counts(dnet, *unit, prompt@, k as nat, limit, eos, 0).1,
                self.proposed - old(self).proposed == self.target_tokens - old(self).target_tokens,
                self.proposed - old(self).proposed <= output@.len() * (k + 1),
                old(self).proposed + max_new_tokens * (k + 1) <= u64::MAX,
                old(self).target_tokens + max_new_tokens * (k + 1) <= u64::MAX,
            decreases max_new_tokens - output@.len(),
        {
            let ghost base = text.len() as int;
            let ghost held = output@;
            proof {
                assert((output@.len() + 1) * (k + 1) <= max_new_tokens * (k + 1)) by (nonlinear_arith)
                    requires
                        output@.len() + 1 <= max_new_tokens,
                ;
                assert((output@.len() + 1) * (k + 1) == output@.len() * (k + 1) + (k + 1)) by (nonlinear_arith);
            }
            let base_len: usize = prompt_len + output.len();
            let (proposals, ahead) = propose(self.draft, draft_row, k, unit, Ghost(text));
            let ghost first = *self.target;
            let verify: Tensor = self.target.forward_slot(proposals.as_slice(), 0, unit);
            let (agreed, choice) = agreement(row.as_slice(), &verify, proposals.as_slice(), vocab);
            self.target_tokens = self.target_tokens + k as u64;
            self.proposed = self.proposed + k as u64;
            self.accepted = self.accepted + agreed as u64;
            let ghost longer = text + proposals@;
            let mut kept: Vec<u32> = Vec::new();
            let mut i: usize = 0;
            while i < agreed
                invariant
                    agreed <= proposals@.len(),
                    i <= agreed,
                    kept@ == proposals@.take(i as int),
                decreases agreed - i,
            {
                kept.push(proposals[i]);
                i = i + 1;
                assert(kept@ =~= proposals@.take(i as int));
            }
            proof {
                net.run_extends(*unit, first.cache.unwrap(), self.target.cache.unwrap(), 0, text, proposals@);
                let rows = transformer::tensor_rows(verify@, vocab as int);
                assert forall|j: int| 0 <= j < proposals@.len() implies #[trigger] rows[j] == net.logits(
                    *unit,
                    net.state(*unit, longer, net.layers.len() as int, base + j),
                ) by {
                    assert(first.last_row(*unit, 0, proposals@, self.target.cache, j) == net.state(
                        *unit,
                        longer,
                        net.layers.len() as int,
                        base + j,
                    ));
                }
                net.round_is_greedy(*unit, prompt@, held, row@, rows, proposals@, agreed as int);
                net.greedy_more(*unit, prompt@, held + kept@, choice);
                net.round_counts(dnet, *unit, prompt@, k as nat, limit, eos, held, proposals@, agreed as int, choice);
            }
            let stopped: bool = emit(&mut output, kept.as_slice(), max_new_tokens, eos);
            proof {
                net.greedy_beginning(*unit, prompt@, held + kept@, output@.len() as int);
                assert((held + kept@).take(output@.len() as int) =~= output@);
            }
            if stopped {
                proof {
                    assert(self.target.has_run(*unit, longer));
                    assert(self.draft.has_run(*unit, longer));
                    assert((prompt@ + output@).is_prefix_of(longer)) by {
                        assert(prompt@ + output@ =~= longer.take((prompt@ + output@).len() as int));
                    }
                }
                return output;
            }
            if agreed == k {
                let bonus: u32 = sampler::greedy_sample(ahead.as_slice());
                proof {
                    chosen_greedily(ahead@, bonus);
                }
                self.target_tokens = self.target_tokens + 1;
                self.proposed = self.proposed + 1;
                if bonus == choice {
                    self.accepted = self.accepted + 1;
                }
            }
            let one: Vec<u32> = vec![choice];
            assert(one@ =~= seq![choice]);
            let ghost full = self.target.cache.unwrap();
            let ghost draft_full = self.draft.cache.unwrap();
            self.target.truncate_cache(0, base_len + agreed);
            self.draft.truncate_cache(0, base_len + agreed);
            let ghost cut = longer.take(base + agreed);
            proof {
                let after = self.target.cache.unwrap();
                let draft_after = self.draft.cache.unwrap();
                net.same_rows_hold(*unit, full, after, 0, longer);
                net.beginning_holds(*unit, after, 0, longer, base + agreed);
                dnet.same_rows_hold(*unit, draft_full, draft_after, 0, longer);
                dnet.beginning_holds(*unit, draft_after, 0, longer, base + agreed);
            }
            row = self.target.run_for_scores(one.as_slice(), unit, Ghost(base + agreed));
            draft_row = self.draft.run_for_scores(one.as_slice(), unit, Ghost(base + agreed));
            proof {
                text = cut + one@;
                assert(text =~= prompt@ + output@.push(choice));
                assert((held + kept@).push(choice) =~= output@.push(choice));
            }
            let stopped: bool = emit(&mut output, one.as_slice(), max_new_tokens, eos);
            assert(output@ =~= (held + kept@).push(choice));
            if stopped {
                proof {
                    assert(self.target.has_run(*unit, text));
                    assert(self.draft.has_run(*unit, text));
                    assert((prompt@ + output@).is_prefix_of(text));
                }
                return output;
            }
            proof {
                assert((held.len() + 1) * (k + 1) <= output@.len() * (k + 1)) by (nonlinear_arith)
                    requires
                        held.len() + 1 <= output@.len(),
                ;
            }
        }
    }
}

} // verus!
