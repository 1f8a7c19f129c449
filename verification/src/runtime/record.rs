//! Recording what goes into and comes out of the projections of a model.
use super::attention;
use super::attention::Attention;
use super::cache::KvCache;
use super::config::Real;
use super::layers::Linear;
use super::model::Model;
use super::network::Network;
use super::transformer;
use super::transformer::TransformerLayer;
use super::unit;
use super::unit::Op;
use crate::tensor::shape;
use crate::tensor::tensor;
use crate::tensor::tensor::{Tensor, TensorModel};
use crate::tensor::types::{DType, Device};
use vstd::prelude::*;

verus! {

/// Which projection of a layer a sample comes from.
#[derive(Debug, Clone, Copy, PartialEq, Eq, Structural)]
pub enum ProjectionKind {
    Q,
    K,
    V,
    O,
    Up,
    Gate,
    Down,
}

/// What went into a projection and what came out of it, row by row.
pub struct ProjectionSample {
    pub layer: usize,
    pub kind: ProjectionKind,
    pub input: Tensor,
    pub target: Tensor,
}

/// What a sample holds.
pub struct SampleModel {
    pub layer: usize,
    pub kind: ProjectionKind,
    pub input: TensorModel,
    pub target: TensorModel,
}

impl View for ProjectionSample {
    type V = SampleModel;

    open spec fn view(&self) -> SampleModel {
        SampleModel { layer: self.layer, kind: self.kind, input: self.input@, target: self.target@ }
    }
}

/// Samples, with a limit on the rows for each layer and kind; no limit where it is zero.
pub struct ProjectionRecorder {
    pub samples: Vec<ProjectionSample>,
    pub cap_per_projection: usize,
}

/// The rows that have been recorded for a layer and a kind.
pub open spec fn rows_for(samples: Seq<SampleModel>, layer: usize, kind: ProjectionKind) -> nat
    decreases samples.len(),
{
    if samples.len() == 0 {
        0
    } else {
        let s = samples.last();
        rows_for(samples.drop_last(), layer, kind) + (if s.layer == layer && s.kind == kind {
            s.input.shape[0] as nat
        } else {
            0
        })
    }
}

/// The samples after one more was offered: it is kept whole, or dropped where it would exceed
/// the limit.
pub open spec fn offered(samples: Seq<SampleModel>, cap: usize, s: SampleModel) -> Seq<SampleModel> {
    if cap == 0 || rows_for(samples, s.layer, s.kind) + s.input.shape[0] <= cap {
        samples.push(s)
    } else {
        samples
    }
}

/// The samples after several more were offered, one after the other.
pub open spec fn offered_all(samples: Seq<SampleModel>, cap: usize, list: Seq<SampleModel>) -> Seq<SampleModel>
    decreases list.len(),
{
    if list.len() == 0 {
        samples
    } else {
        offered(offered_all(samples, cap, list.drop_last()), cap, list.last())
    }
}

/// Where there is no limit, all that is offered is kept.
pub proof fn no_limit_keeps_all(samples: Seq<SampleModel>, list: Seq<SampleModel>)
    ensures
        offered_all(samples, 0, list) == samples + list,
    decreases list.len(),
{
    if list.len() > 0 {
        no_limit_keeps_all(samples, list.drop_last());
        assert((samples + list.drop_last()).push(list.last()) =~= samples + list);
    } else {
        assert(samples + list =~= samples);
    }
}

/// No more than the limit is kept for a layer and a kind.
pub proof fn limit_holds(samples: Seq<SampleModel>, cap: usize, s: SampleModel, layer: usize, kind: ProjectionKind)
    requires
        cap > 0,
        rows_for(samples, layer, kind) <= cap,
    ensures
        rows_for(offered(samples, cap, s), layer, kind) <= cap,
{
    assert(samples.push(s).drop_last() =~= samples);
}

impl ProjectionRecorder {
    /// The samples.
    pub open spec fn list(self) -> Seq<SampleModel> {
        Seq::new(self.samples@.len(), |i: int| self.samples@[i]@)
    }

    /// Each sample has rows.
    pub open spec fn wf(self) -> bool {
        forall|i: int| 0 <= i < self.samples@.len() ==> (#[trigger] self.samples@[i])@.input.shape.len() > 0
    }

    /// A recorder without samples.
    pub fn new(cap_per_projection: usize) -> (r: ProjectionRecorder)
        ensures
            r.samples@.len() == 0,
            r.cap_per_projection == cap_per_projection,
            r.wf(),
    {
        ProjectionRecorder { samples: Vec::new(), cap_per_projection }
    }

    /// Whether so many more rows stay within the limit.
    fn has_room(&self, layer: usize, kind: ProjectionKind, rows: usize) -> (r: bool)
        requires
            self.wf(),
        ensures
            r == (rows_for(self.list(), layer, kind) + rows <= self.cap_per_projection),
    {
        if rows > self.cap_per_projection {
            return false;
        }
        let mut left: usize = self.cap_per_projection - rows;
        let n: usize = self.samples.len();
        let mut i: usize = 0;
        assert(self.list().take(0) =~= Seq::<SampleModel>::empty());
        while i < n
            invariant
                self.wf(),
                n == self.samples@.len(),
                i <= n,
                rows <= self.cap_per_projection,
                left + rows_for(self.list().take(i as int), layer, kind) + rows == self.cap_per_projection,
            decreases n - i,
        {
            proof {
                assert(self.list().take(i + 1).drop_last() =~= self.list().take(i as int));
                assert(self.samples@[i as int]@.input.shape.len() > 0);
            }
            if self.samples[i].layer == layer && self.samples[i].kind == kind {
                let m: usize = self.samples[i].input.shape()[0];
                if m > left {
                    proof {
                        rows_grow(self.list(), i + 1, layer, kind);
                    }
                    return false;
                }
                left = left - m;
            }
            i = i + 1;
        }
        assert(self.list().take(n as int) =~= self.list());
        true
    }

    /// Offers a sample.
    pub fn push(&mut self, sample: ProjectionSample)
        requires
            old(self).wf(),
            sample@.input.shape.len() > 0,
        ensures
            final(self).wf(),
            final(self).cap_per_projection == old(self).cap_per_projection,
            final(self).list() == offered(old(self).list(), old(self).cap_per_projection, sample@),
    {
        let ghost before = self.list();
        let ghost held = *self;
        let rows: usize = sample.input.shape()[0];
        if self.cap_per_projection == 0 || self.has_room(sample.layer, sample.kind, rows) {
            let ghost s = sample@;
            self.samples.push(sample);
            proof {
                assert(self.list() =~= before.push(s));
                assert forall|i: int| 0 <= i < self.samples@.len() implies (#[trigger] self.samples@[i])@.input.shape.len() > 0 by {
                    if i < held.samples@.len() {
                        assert(self.samples@[i] == held.samples@[i]);
                    }
                }
            }
        }
    }
}

/// More samples have no fewer rows.
proof fn rows_grow(samples: Seq<SampleModel>, n: int, layer: usize, kind: ProjectionKind)
    requires
        0 <= n <= samples.len(),
    ensures
        rows_for(samples.take(n), layer, kind) <= rows_for(samples, layer, kind),
    decreases samples.len() - n,
{
    if n < samples.len() {
        rows_grow(samples, n + 1, layer, kind);
        assert(samples.take(n + 1).drop_last() =~= samples.take(n));
    } else {
        assert(samples.take(n) =~= samples);
    }
}

/// The target rows are what a projection makes of the input rows.
pub open spec fn maps_rows<F: Fn(Op, &[u32], &[u32], &[u32]) -> Vec<u32>>(unit: F, proj: Linear, input: TensorModel, target: TensorModel) -> bool {
    let n = proj.weight@.shape[0];
    &&& input.shape.len() == 2
    &&& target.wf()
    &&& target.shape == seq![input.shape[0], n]
    &&& target.dtype is F32
    &&& forall|i: int| 0 <= i < input.shape[0] ==> #[trigger] target.chunk(i, n as int) == proj.sole_image(
        unit,
        input.chunk(i, input.shape[1] as int),
    )
}

/// The projection of a layer that a kind names.
pub open spec fn projection(layer: TransformerLayer, kind: ProjectionKind) -> Linear {
    match kind {
        ProjectionKind::Q => layer.attention.q_proj,
        ProjectionKind::K => layer.attention.k_proj,
        ProjectionKind::V => layer.attention.v_proj,
        ProjectionKind::O => layer.attention.o_proj,
        ProjectionKind::Up => layer.ffn_up,
        ProjectionKind::Gate => layer.ffn_gate,
        ProjectionKind::Down => layer.ffn_down,
    }
}

/// The kinds of samples that a layer offers, in order.
pub open spec fn kinds(layer: TransformerLayer) -> Seq<ProjectionKind> {
    if layer.config.activation is Gelu {
        seq![ProjectionKind::Q, ProjectionKind::K, ProjectionKind::V, ProjectionKind::O, ProjectionKind::Up, ProjectionKind::Down]
    } else {
        seq![
            ProjectionKind::Q,
            ProjectionKind::K,
            ProjectionKind::V,
            ProjectionKind::O,
            ProjectionKind::Up,
            ProjectionKind::Gate,
            ProjectionKind::Down,
        ]
    }
}

impl TransformerLayer {
    /// What the layer hands to a projection for a row, given what comes out of the heads.
    pub open spec fn handed<F: Fn(Op, &[u32], &[u32], &[u32]) -> Vec<u32>>(self, unit: F, kind: ProjectionKind, x: Seq<u32>, mixed: Seq<u32>) -> Seq<u32> {
        let h = transformer::plus(unit, x, self.attention.o_proj.sole_image(unit, mixed));
        let y = self.entered(unit, self.ffn_norm, h);
        match kind {
            ProjectionKind::Q | ProjectionKind::K | ProjectionKind::V => self.entered(unit, self.attn_norm, x),
            ProjectionKind::O => mixed,
            ProjectionKind::Up | ProjectionKind::Gate => y,
            ProjectionKind::Down => transformer::activated(unit, self.config.activation, self.ffn_up, self.ffn_gate, y),
        }
    }

    /// What comes out of the heads for rows of the first slot, given the tensors of the cache.
    pub open spec fn cached_mixes<F: Fn(Op, &[u32], &[u32], &[u32]) -> Vec<u32>>(
        self,
        unit: F,
        factor: Real,
        xs: Seq<Seq<u32>>,
        keys: TensorModel,
        values: TensorModel,
        filled: int,
        position: int,
        max_len: int,
    ) -> Seq<Seq<u32>> {
        Seq::new(
            xs.len(),
            |i: int|
                self.attention.mixed(
                    unit,
                    factor,
                    self.entered(unit, self.attn_norm, xs[i]),
                    position + i,
                    self.attention.seen_by(keys, 0, filled, position + i, max_len),
                    self.attention.seen_by(values, 0, filled, position + i, max_len),
                ),
        )
    }

    /// What comes out of the heads for rows that see only each other.
    pub open spec fn alone_mixes<F: Fn(Op, &[u32], &[u32], &[u32]) -> Vec<u32>>(self, unit: F, factor: Real, xs: Seq<Seq<u32>>, position: int) -> Seq<Seq<u32>> {
        Seq::new(
            xs.len(),
            |i: int|
                self.attention.mixed(
                    unit,
                    factor,
                    self.entered(unit, self.attn_norm, xs[i]),
                    position + i,
                    self.keys_between(unit, factor, xs, position, self.attention.first_seen(i), i + 1 - self.attention.first_seen(i)),
                    self.values_between(unit, xs, self.attention.first_seen(i), i + 1 - self.attention.first_seen(i)),
                ),
        )
    }
}

/// A sample of a projection of a layer: it holds what the layer handed to the projection for each
/// row, and what the projection made of it.
pub open spec fn sample_of<F: Fn(Op, &[u32], &[u32], &[u32]) -> Vec<u32>>(
    unit: F,
    layer: TransformerLayer,
    number: usize,
    kind: ProjectionKind,
    xs: Seq<Seq<u32>>,
    mixes: Seq<Seq<u32>>,
    s: SampleModel,
) -> bool {
    &&& s.layer == number
    &&& s.kind == kind
    &&& s.input.shape.len() == 2
    &&& s.input.shape[0] == xs.len()
    &&& forall|r: int| 0 <= r < xs.len() ==> #[trigger] s.input.chunk(r, s.input.shape[1] as int) == layer.handed(unit, kind, xs[r], mixes[r])
    &&& maps_rows(unit, projection(layer, kind), s.input, s.target)
}

/// A layer has offered samples: one of each of its kinds, in order.
pub open spec fn layer_offered<F: Fn(Op, &[u32], &[u32], &[u32]) -> Vec<u32>>(
    unit: F,
    layer: TransformerLayer,
    number: usize,
    xs: Seq<Seq<u32>>,
    mixes: Seq<Seq<u32>>,
    list: Seq<SampleModel>,
) -> bool {
    &&& list.len() == kinds(layer).len()
    &&& forall|i: int| 0 <= i < list.len() ==> sample_of(unit, layer, number, kinds(layer)[i], xs, mixes, #[trigger] list[i])
}

/// The samples after several layers have offered theirs.
pub open spec fn offered_layers(samples: Seq<SampleModel>, cap: usize, lists: Seq<Seq<SampleModel>>) -> Seq<SampleModel>
    decreases lists.len(),
{
    if lists.len() == 0 {
        samples
    } else {
        offered_all(offered_layers(samples, cap, lists.drop_last()), cap, lists.last())
    }
}

/// Applies a projection to the rows of a matrix and offers both as a sample.
fn record_projection<F: Fn(Op, &[u32], &[u32], &[u32]) -> Vec<u32>>(
    recorder: &mut ProjectionRecorder,
    layer: usize,
    kind: ProjectionKind,
    proj: &Linear,
    input: &Tensor,
    unit: &F,
) -> (r: (Tensor, Ghost<SampleModel>))
    requires
        unit::lawful(*unit),
        old(recorder).wf(),
        input@.wf(),
        input@.dtype is F32,
        input@.shape.len() == 2,
        proj.weight@.shape.len() >= 1,
        proj.maps(input@.shape[1] as int, proj.weight@.shape[0] as int),
        tensor::storable(seq![input@.shape[0], proj.weight@.shape[0]], DType::F32),
    ensures
        final(recorder).wf(),
        final(recorder).cap_per_projection == old(recorder).cap_per_projection,
        final(recorder).list() == offered(old(recorder).list(), old(recorder).cap_per_projection, r.1@),
        r.1@ == (SampleModel { layer, kind, input: input@, target: r.0@ }),
        maps_rows(*unit, *proj, input@, r.0@),
        r.0@.device == Device::Cpu,
{
    let target: Tensor = proj.forward(input, unit);
    proof {
        let n = proj.weight@.shape[0] as int;
        let k = input@.shape[1] as int;
        assert forall|i: int| 0 <= i < input@.shape[0] implies #[trigger] target@.chunk(i, n) == proj.sole_image(*unit, input@.chunk(i, k)) by {
            proj.image_is_sole(*unit, input@.chunk(i, k), i, k, n);
        }
    }
    let sample: ProjectionSample = ProjectionSample { layer, kind, input: input.clone(), target: target.clone() };
    let ghost s = sample@;
    recorder.push(sample);
    (target, Ghost(s))
}

/// Offering one more sample.
pub proof fn offered_more(samples: Seq<SampleModel>, cap: usize, list: Seq<SampleModel>, s: SampleModel)
    ensures
        offered_all(samples, cap, list.push(s)) == offered(offered_all(samples, cap, list), cap, s),
{
    assert(list.push(s).drop_last() =~= list);
}

/// The samples of an attention block: those of queries, keys and values hold its input, that of
/// the output what came out of the heads.
pub open spec fn four_offered<F: Fn(Op, &[u32], &[u32], &[u32]) -> Vec<u32>>(
    unit: F,
    block: Attention,
    number: usize,
    input: TensorModel,
    mixes: Seq<Seq<u32>>,
    output: TensorModel,
    list: Seq<SampleModel>,
) -> bool {
    let w = block.heads() * block.width();
    &&& list.len() == 4
    &&& list[0].layer == number && list[1].layer == number && list[2].layer == number && list[3].layer == number
    &&& list[0].kind is Q && list[1].kind is K && list[2].kind is V && list[3].kind is O
    &&& list[0].input == input && maps_rows(unit, block.q_proj, input, list[0].target)
    &&& list[1].input == input && maps_rows(unit, block.k_proj, input, list[1].target)
    &&& list[2].input == input && maps_rows(unit, block.v_proj, input, list[2].target)
    &&& list[3].input.shape == seq![input.shape[0], w as usize]
    &&& forall|r: int| 0 <= r < input.shape[0] ==> #[trigger] list[3].input.chunk(r, w) == mixes[r]
    &&& list[3].target == output && maps_rows(unit, block.o_proj, list[3].input, output)
}

impl Attention {
    /// What comes out of the heads for rows of the first slot, given the tensors of the cache.
    pub open spec fn cached_mix<F: Fn(Op, &[u32], &[u32], &[u32]) -> Vec<u32>>(
        self,
        unit: F,
        factor: Real,
        input: TensorModel,
        keys: TensorModel,
        values: TensorModel,
        filled: int,
        position: int,
        max_len: int,
    ) -> Seq<Seq<u32>> {
        Seq::new(
            input.shape[0] as nat,
            |i: int|
                self.mixed(
                    unit,
                    factor,
                    input.chunk(i, input.shape[1] as int),
                    position + i,
                    self.seen_by(keys, 0, filled, position + i, max_len),
                    self.seen_by(values, 0, filled, position + i, max_len),
                ),
        )
    }

    /// What comes out of the heads for rows that see only each other.
    pub open spec fn alone_mix<F: Fn(Op, &[u32], &[u32], &[u32]) -> Vec<u32>>(self, unit: F, factor: Real, input: TensorModel, position: int) -> Seq<Seq<u32>> {
        let k = input.shape[1] as int;
        Seq::new(
            input.shape[0] as nat,
            |i: int|
                self.mixed(
                    unit,
                    factor,
                    input.chunk(i, k),
                    position + i,
                    self.block_keys(unit, factor, input, k, position, self.first_seen(i), i + 1 - self.first_seen(i)),
                    self.block_values(unit, input, k, self.first_seen(i), i + 1 - self.first_seen(i)),
                ),
        )
    }

    /// Offers a sample of the projections of queries, keys and values.
    fn record_heads<F: Fn(Op, &[u32], &[u32], &[u32]) -> Vec<u32>>(
        &self,
        input: &Tensor,
        layer_idx: usize,
        recorder: &mut ProjectionRecorder,
        unit: &F,
    ) -> (r: Ghost<Seq<SampleModel>>)
        requires
            unit::lawful(*unit),
            old(recorder).wf(),
            input@.wf(),
            input@.dtype is F32,
            input@.shape.len() == 2,
            self.fits(input@.shape[1] as int),
            self.room(input@.shape[0]),
        ensures
            final(recorder).wf(),
            final(recorder).cap_per_projection == old(recorder).cap_per_projection,
            final(recorder).list() == offered_all(old(recorder).list(), old(recorder).cap_per_projection, r@),
            r@.len() == 3,
            r@[0] == (SampleModel { layer: layer_idx, kind: ProjectionKind::Q, input: input@, target: r@[0].target }),
            r@[1] == (SampleModel { layer: layer_idx, kind: ProjectionKind::K, input: input@, target: r@[1].target }),
            r@[2] == (SampleModel { layer: layer_idx, kind: ProjectionKind::V, input: input@, target: r@[2].target }),
            maps_rows(*unit, self.q_proj, input@, r@[0].target),
            maps_rows(*unit, self.k_proj, input@, r@[1].target),
            maps_rows(*unit, self.v_proj, input@, r@[2].target),
    {
        let ghost before = recorder.list();
        let ghost cap = recorder.cap_per_projection;
        let (_, Ghost(q)) = record_projection(recorder, layer_idx, ProjectionKind::Q, &self.q_proj, input, unit);
        let (_, Ghost(k)) = record_projection(recorder, layer_idx, ProjectionKind::K, &self.k_proj, input, unit);
        let (_, Ghost(v)) = record_projection(recorder, layer_idx, ProjectionKind::V, &self.v_proj, input, unit);
        let ghost list = seq![q, k, v];
        proof {
            let none = Seq::<SampleModel>::empty();
            offered_more(before, cap, none, q);
            offered_more(before, cap, none.push(q), k);
            offered_more(before, cap, none.push(q).push(k), v);
            assert(list =~= none.push(q).push(k).push(v));
        }
        Ghost(list)
    }

    /// Projects what came out of the heads, and offers a sample of it behind the other three.
    fn record_output<F: Fn(Op, &[u32], &[u32], &[u32]) -> Vec<u32>>(
        &self,
        input: Ghost<TensorModel>,
        mixed: &Tensor,
        mixes: Ghost<Seq<Seq<u32>>>,
        three: Ghost<Seq<SampleModel>>,
        first: Ghost<Seq<SampleModel>>,
        layer_idx: usize,
        recorder: &mut ProjectionRecorder,
        unit: &F,
    ) -> (r: (Tensor, Ghost<Seq<SampleModel>>))
        requires
            unit::lawful(*unit),
            old(recorder).wf(),
            old(recorder).list() == offered_all(first@, old(recorder).cap_per_projection, three@),
            input@.shape.len() == 2,
            self.fits(input@.shape[1] as int),
            self.room(input@.shape[0]),
            mixed@.wf(),
            mixed@.dtype is F32,
            mixed@.shape == seq![input@.shape[0], (self.heads() * self.width()) as usize],
            mixes@.len() == input@.shape[0],
            forall|i: int| 0 <= i < input@.shape[0] ==> #[trigger] mixed@.chunk(i, self.heads() * self.width()) == mixes@[i],
            three@.len() == 3,
            three@[0] == (SampleModel { layer: layer_idx, kind: ProjectionKind::Q, input: input@, target: three@[0].target }),
            three@[1] == (SampleModel { layer: layer_idx, kind: ProjectionKind::K, input: input@, target: three@[1].target }),
            three@[2] == (SampleModel { layer: layer_idx, kind: ProjectionKind::V, input: input@, target: three@[2].target }),
            maps_rows(*unit, self.q_proj, input@, three@[0].target),
            maps_rows(*unit, self.k_proj, input@, three@[1].target),
            maps_rows(*unit, self.v_proj, input@, three@[2].target),
        ensures
            final(recorder).wf(),
            final(recorder).cap_per_projection == old(recorder).cap_per_projection,
            final(recorder).list() == offered_all(first@, old(recorder).cap_per_projection, r.1@),
            four_offered(*unit, *self, layer_idx, input@, mixes@, r.0@, r.1@),
            r.0@.wf(),
            r.0@.dtype is F32,
            r.0@.device == Device::Cpu,
            r.0@.shape == seq![input@.shape[0], self.o_proj.weight@.shape[0]],
            forall|i: int| 0 <= i < input@.shape[0] ==> #[trigger] r.0@.chunk(i, self.o_proj.weight@.shape[0] as int) == self.o_proj.sole_image(
                *unit,
                mixes@[i],
            ),
    {
        let (out, Ghost(o)) = record_projection(recorder, layer_idx, ProjectionKind::O, &self.o_proj, mixed, unit);
        let ghost list = three@.push(o);
        proof {
            offered_more(first@, recorder.cap_per_projection, three@, o);
            assert forall|i: int| 0 <= i < input@.shape[0] implies #[trigger] out@.chunk(i, self.o_proj.weight@.shape[0] as int)
                == self.o_proj.sole_image(*unit, mixes@[i]) by {
                assert(mixed@.chunk(i, self.heads() * self.width()) == mixes@[i]);
            }
        }
        (out, Ghost(list))
    }

    /// Attends in the first slot as [`Attention::forward_gpu_with_rope_cache`] does, and offers
    /// a sample of each projection.
    pub fn forward_record<F: Fn(Op, &[u32], &[u32], &[u32]) -> Vec<u32>>(
        &self,
        input: &Tensor,
        cache: &mut KvCache,
        layer_idx: usize,
        position: usize,
        factor: Real,
        recorder: &mut ProjectionRecorder,
        unit: &F,
    ) -> (r: (Tensor, Ghost<Seq<SampleModel>>))
        requires
            unit::lawful(*unit),
            old(recorder).wf(),
            input@.wf(),
            input@.dtype is F32,
            input@.shape.len() == 2,
            self.fits(input@.shape[1] as int),
            self.room(input@.shape[0]),
            layer_idx < old(cache).k@.len(),
            old(cache).k@[layer_idx as int]@.shape.len() == 4,
            ({
                let d = old(cache).k@[layer_idx as int]@.shape;
                &&& old(cache).wf(d[1], d[2], d[3])
                &&& d[1] == self.kv()
                &&& d[3] == self.width()
                &&& 0 < old(cache).batch
                &&& position + input@.shape[0] <= d[2]
                &&& old(cache).batch * d[1] * d[2] <= usize::MAX
                &&& attention::at_least_one(old(cache).seq_lens@[0] as int) <= d[2]
            }),
        ensures
            final(recorder).wf(),
            final(recorder).cap_per_projection == old(recorder).cap_per_projection,
            final(recorder).list() == offered_all(old(recorder).list(), old(recorder).cap_per_projection, r.1@),
            super::cache::written(*old(cache), *final(cache), layer_idx as int),
            ({
                let d = old(cache).k@[layer_idx as int]@.shape;
                let n = input@.shape[0];
                let k = input@.shape[1] as int;
                forall|b: int, g: int, p: int|
                    0 <= b < old(cache).batch && 0 <= g < d[1] && 0 <= p < d[2] ==> #[trigger] final(cache).rows(layer_idx as int, b, g, p) == (if b
                        == 0 && position <= p < position + n {
                        (self.key(*unit, factor, input@.chunk(p - position, k), g, p), self.value(*unit, input@.chunk(p - position, k), g))
                    } else {
                        old(cache).rows(layer_idx as int, b, g, p)
                    })
            }),
            r.0@.wf(),
            r.0@.dtype is F32,
            r.0@.device == Device::Cpu,
            r.0@.shape == seq![input@.shape[0], self.o_proj.weight@.shape[0]],
            ({
                let d = old(cache).k@[layer_idx as int]@.shape;
                let mixes = self.cached_mix(
                    *unit,
                    factor,
                    input@,
                    final(cache).k@[layer_idx as int]@,
                    final(cache).v@[layer_idx as int]@,
                    attention::at_least_one(old(cache).seq_lens@[0] as int),
                    position as int,
                    d[2] as int,
                );
                &&& four_offered(*unit, *self, layer_idx, input@, mixes, r.0@, r.1@)
                &&& forall|i: int| 0 <= i < input@.shape[0] ==> #[trigger] r.0@.chunk(i, self.o_proj.weight@.shape[0] as int)
                    == self.o_proj.sole_image(*unit, mixes[i])
            }),
    {
        let ghost before = recorder.list();
        let three: Ghost<Seq<SampleModel>> = self.record_heads(input, layer_idx, recorder, unit);
        let mixed: Tensor = self.attend_cached(input, cache, layer_idx, 0, position, factor, unit);
        let ghost d = old(cache).k@[layer_idx as int]@.shape;
        let ghost mixes = self.cached_mix(
            *unit,
            factor,
            input@,
            cache.k@[layer_idx as int]@,
            cache.v@[layer_idx as int]@,
            attention::at_least_one(old(cache).seq_lens@[0] as int),
            position as int,
            d[2] as int,
        );
        self.record_output(Ghost(input@), &mixed, Ghost(mixes), three, Ghost(before), layer_idx, recorder, unit)
    }

    /// Attends without a cache as [`Attention::forward`] does, and offers a sample of each
    /// projection.
    pub fn forward_record_alone<F: Fn(Op, &[u32], &[u32], &[u32]) -> Vec<u32>>(
        &self,
        input: &Tensor,
        layer_idx: usize,
        position: usize,
        factor: Real,
        recorder: &mut ProjectionRecorder,
        unit: &F,
    ) -> (r: (Tensor, Ghost<Seq<SampleModel>>))
        requires
            unit::lawful(*unit),
            old(recorder).wf(),
            input@.wf(),
            input@.dtype is F32,
            input@.shape.len() == 2,
            self.fits(input@.shape[1] as int),
            self.room(input@.shape[0]),
            position + input@.shape[0] <= usize::MAX,
        ensures
            final(recorder).wf(),
            final(recorder).cap_per_projection == old(recorder).cap_per_projection,
            final(recorder).list() == offered_all(old(recorder).list(), old(recorder).cap_per_projection, r.1@),
            four_offered(*unit, *self, layer_idx, input@, self.alone_mix(*unit, factor, input@, position as int), r.0@, r.1@),
            r.0@.wf(),
            r.0@.dtype is F32,
            r.0@.device == Device::Cpu,
            r.0@.shape == seq![input@.shape[0], self.o_proj.weight@.shape[0]],
            forall|i: int| 0 <= i < input@.shape[0] ==> #[trigger] r.0@.chunk(i, self.o_proj.weight@.shape[0] as int) == self.o_proj.sole_image(
                *unit,
                self.alone_mix(*unit, factor, input@, position as int)[i],
            ),
    {
        let ghost before = recorder.list();
        let three: Ghost<Seq<SampleModel>> = self.record_heads(input, layer_idx, recorder, unit);
        let mixed: Tensor = self.attend_alone(input, position, factor, unit);
        let ghost mixes = self.alone_mix(*unit, factor, input@, position as int);
        self.record_output(Ghost(input@), &mixed, Ghost(mixes), three, Ghost(before), layer_idx, recorder, unit)
    }
}

impl TransformerLayer {
    /// Adds what attention made of the rows, then what the feed-forward block makes of the sums,
    /// and offers samples of the projections of that block behind those of attention.
    fn complete_record<F: Fn(Op, &[u32], &[u32], &[u32]) -> Vec<u32>>(
        &self,
        input: &Tensor,
        normed: &Tensor,
        attended: &Tensor,
        mixes: Ghost<Seq<Seq<u32>>>,
        four: Ghost<Seq<SampleModel>>,
        first: Ghost<Seq<SampleModel>>,
        layer_idx: usize,
        recorder: &mut ProjectionRecorder,
        unit: &F,
    ) -> (r: (Tensor, Ghost<Seq<SampleModel>>))
        requires
            unit::lawful(*unit),
            old(recorder).wf(),
            old(recorder).list() == offered_all(first@, old(recorder).cap_per_projection, four@),
            input@.wf(),
            input@.dtype is F32,
            input@.shape.len() == 2,
            self.fits(input@.shape[1] as int),
            self.room(input@.shape[0]),
            normed@.shape == input@.shape,
            forall|i: int| 0 <= i < input@.shape[0] ==> #[trigger] normed@.chunk(i, input@.shape[1] as int) == self.entered(
                *unit,
                self.attn_norm,
                input@.chunk(i, input@.shape[1] as int),
            ),
            attended@.wf(),
            attended@.dtype is F32,
            attended@.shape == input@.shape,
            mixes@.len() == input@.shape[0],
            forall|i: int| 0 <= i < input@.shape[0] ==> #[trigger] attended@.chunk(i, input@.shape[1] as int) == self.attention.o_proj.sole_image(
                *unit,
                mixes@[i],
            ),
            four_offered(*unit, self.attention, layer_idx, normed@, mixes@, attended@, four@),
        ensures
            final(recorder).wf(),
            final(recorder).cap_per_projection == old(recorder).cap_per_projection,
            final(recorder).list() == offered_all(first@, old(recorder).cap_per_projection, r.1@),
            layer_offered(*unit, *self, layer_idx, transformer::tensor_rows(input@, input@.shape[1] as int), mixes@, r.1@),
            r.0@.wf(),
            r.0@.shape == input@.shape,
            r.0@.dtype is F32,
            r.0@.device == Device::Cpu,
            forall|i: int| 0 <= i < input@.shape[0] ==> #[trigger] r.0@.chunk(i, input@.shape[1] as int) == self.completed(
                *unit,
                input@.chunk(i, input@.shape[1] as int),
                attended@.chunk(i, input@.shape[1] as int),
            ),
    {
        let ghost cap = recorder.cap_per_projection;
        let ghost k = input@.shape[1] as int;
        let ghost n = self.inner();
        let ghost xs = transformer::tensor_rows(input@, k);
        let h: Tensor = transformer::pair_rows(Op::Plus, input, attended, unit);
        let normed2: Tensor = self.enter(&self.ffn_norm, &h, unit);
        let (inner, up, gate) = transformer::ffn_record_activations(&self.config, &normed2, &self.ffn_up, &self.ffn_gate, unit);
        proof {
            assert forall|i: int| 0 <= i < input@.shape[0] implies #[trigger] normed2@.chunk(i, k) == self.handed(
                *unit,
                ProjectionKind::Up,
                xs[i],
                mixes@[i],
            ) by {
                assert(h@.chunk(i, k) == transformer::plus(*unit, input@.chunk(i, k), attended@.chunk(i, k)));
                assert(attended@.chunk(i, k) == self.attention.o_proj.sole_image(*unit, mixes@[i]));
            }
            assert forall|i: int| 0 <= i < input@.shape[0] implies #[trigger] inner@.chunk(i, n) == self.handed(
                *unit,
                ProjectionKind::Down,
                xs[i],
                mixes@[i],
            ) by {
                assert(normed2@.chunk(i, k) == self.handed(*unit, ProjectionKind::Up, xs[i], mixes@[i]));
            }
        }
        let sample: ProjectionSample = ProjectionSample {
            layer: layer_idx,
            kind: ProjectionKind::Up,
            input: normed2.clone(),
            target: up,
        };
        let ghost mut list = four@.push(sample@);
        proof {
            offered_more(first@, cap, four@, sample@);
            assert(sample_of(*unit, *self, layer_idx, ProjectionKind::Up, xs, mixes@, sample@));
            let w = self.attention.heads() * self.attention.width();
            assert forall|r: int| 0 <= r < xs.len() implies #[trigger] normed@.chunk(r, k) == self.handed(*unit, ProjectionKind::Q, xs[r], mixes@[r]) by {
                assert(xs[r] == input@.chunk(r, k));
            }
            assert(sample_of(*unit, *self, layer_idx, ProjectionKind::Q, xs, mixes@, four@[0]));
            assert(sample_of(*unit, *self, layer_idx, ProjectionKind::K, xs, mixes@, four@[1])) by {
                assert forall|r: int| 0 <= r < xs.len() implies #[trigger] four@[1].input.chunk(r, four@[1].input.shape[1] as int) == self.handed(
                    *unit,
                    ProjectionKind::K,
                    xs[r],
                    mixes@[r],
                ) by {
                    assert(normed@.chunk(r, k) == self.handed(*unit, ProjectionKind::Q, xs[r], mixes@[r]));
                }
            }
            assert(sample_of(*unit, *self, layer_idx, ProjectionKind::V, xs, mixes@, four@[2])) by {
                assert forall|r: int| 0 <= r < xs.len() implies #[trigger] four@[2].input.chunk(r, four@[2].input.shape[1] as int) == self.handed(
                    *unit,
                    ProjectionKind::V,
                    xs[r],
                    mixes@[r],
                ) by {
                    assert(normed@.chunk(r, k) == self.handed(*unit, ProjectionKind::Q, xs[r], mixes@[r]));
                }
            }
            assert(sample_of(*unit, *self, layer_idx, ProjectionKind::O, xs, mixes@, four@[3])) by {
                assert(four@[3].input.shape[1] == w);
                assert forall|r: int| 0 <= r < xs.len() implies #[trigger] four@[3].input.chunk(r, four@[3].input.shape[1] as int) == self.handed(
                    *unit,
                    ProjectionKind::O,
                    xs[r],
                    mixes@[r],
                ) by {
                    assert(four@[3].input.chunk(r, w) == mixes@[r]);
                }
            }
        }
        recorder.push(sample);
        match gate {
            Some(g) => {
                let sample: ProjectionSample = ProjectionSample {
                    layer: layer_idx,
                    kind: ProjectionKind::Gate,
                    input: normed2.clone(),
                    target: g,
                };
                proof {
                    assert(sample_of(*unit, *self, layer_idx, ProjectionKind::Gate, xs, mixes@, sample@)) by {
                        assert forall|r: int| 0 <= r < xs.len() implies #[trigger] sample@.input.chunk(r, sample@.input.shape[1] as int) == self.handed(
                            *unit,
                            ProjectionKind::Gate,
                            xs[r],
                            mixes@[r],
                        ) by {
                            assert(normed2@.chunk(r, k) == self.handed(*unit, ProjectionKind::Up, xs[r], mixes@[r]));
                        }
                    }
                    offered_more(first@, cap, list, sample@);
                    list = list.push(sample@);
                }
                recorder.push(sample);
            },
            None => {},
        }
        let (down, Ghost(last)) = record_projection(recorder, layer_idx, ProjectionKind::Down, &self.ffn_down, &inner, unit);
        proof {
            offered_more(first@, cap, list, last);
            assert(sample_of(*unit, *self, layer_idx, ProjectionKind::Down, xs, mixes@, last));
            list = list.push(last);
            assert(layer_offered(*unit, *self, layer_idx, xs, mixes@, list));
        }
        assert(down@.shape =~= input@.shape);
        let out: Tensor = self.post_ffn(down, unit);
        let t: Tensor = transformer::pair_rows(Op::Plus, &h, &out, unit);
        proof {
            assert forall|i: int| 0 <= i < input@.shape[0] implies #[trigger] t@.chunk(i, k) == self.completed(
                *unit,
                input@.chunk(i, k),
                attended@.chunk(i, k),
            ) by {
                let x = h@.chunk(i, k);
                assert(x == transformer::plus(*unit, input@.chunk(i, k), attended@.chunk(i, k)));
                assert(normed2@.chunk(i, k) == self.entered(*unit, self.ffn_norm, x));
                assert(inner@.chunk(i, n) == transformer::activated(
                    *unit,
                    self.config.activation,
                    self.ffn_up,
                    self.ffn_gate,
                    normed2@.chunk(i, k),
                ));
                assert(down@.chunk(i, k) == self.ffn_down.sole_image(*unit, inner@.chunk(i, n)));
                assert(out@.chunk(i, k) == self.feed(*unit, x));
            }
        }
        (t, Ghost(list))
    }

    /// Runs rows of the first slot through the layer as [`TransformerLayer::forward`] does, and
    /// offers a sample of each projection.
    pub fn forward_record<F: Fn(Op, &[u32], &[u32], &[u32]) -> Vec<u32>>(
        &self,
        input: &Tensor,
        cache: &mut KvCache,
        layer_idx: usize,
        position: usize,
        factor: Real,
        recorder: &mut ProjectionRecorder,
        unit: &F,
    ) -> (t: Tensor)
        requires
            unit::lawful(*unit),
            old(recorder).wf(),
            self.takes(input@, *old(cache), layer_idx as int, 0, position as int),
        ensures
            self.gives(*unit, factor, input@, *old(cache), *final(cache), layer_idx as int, 0, position as int, t@),
            final(recorder).wf(),
            final(recorder).cap_per_projection == old(recorder).cap_per_projection,
            exists|list: Seq<SampleModel>|
                final(recorder).list() == offered_all(old(recorder).list(), old(recorder).cap_per_projection, list) && #[trigger] layer_offered(
                    *unit,
                    *self,
                    layer_idx,
                    transformer::tensor_rows(input@, input@.shape[1] as int),
                    self.cached_mixes(
                        *unit,
                        factor,
                        transformer::tensor_rows(input@, input@.shape[1] as int),
                        final(cache).k@[layer_idx as int]@,
                        final(cache).v@[layer_idx as int]@,
                        attention::at_least_one(old(cache).seq_lens@[0] as int),
                        position as int,
                        old(cache).k@[layer_idx as int]@.shape[2] as int,
                    ),
                    list,
                ),
    {
        let ghost before = recorder.list();
        let ghost k = input@.shape[1] as int;
        let ghost first = *cache;
        let normed: Tensor = self.enter(&self.attn_norm, input, unit);
        let (attended, four) = self.attention.forward_record(&normed, cache, layer_idx, position, factor, recorder, unit);
        assert(attended@.shape =~= input@.shape);
        let ghost d = first.k@[layer_idx as int]@.shape;
        let ghost filled = attention::at_least_one(first.seq_lens@[0] as int);
        let ghost mixes = self.cached_mixes(
            *unit,
            factor,
            transformer::tensor_rows(input@, k),
            cache.k@[layer_idx as int]@,
            cache.v@[layer_idx as int]@,
            filled,
            position as int,
            d[2] as int,
        );
        proof {
            let own = self.attention.cached_mix(
                *unit,
                factor,
                normed@,
                cache.k@[layer_idx as int]@,
                cache.v@[layer_idx as int]@,
                filled,
                position as int,
                d[2] as int,
            );
            assert forall|i: int| 0 <= i < input@.shape[0] implies mixes[i] == own[i] by {
                assert(normed@.chunk(i, k) == self.entered(*unit, self.attn_norm, input@.chunk(i, k)));
            }
            assert(mixes =~= own);
            assert forall|i: int| 0 <= i < input@.shape[0] implies #[trigger] attended@.chunk(i, k) == self.attention.o_proj.sole_image(
                *unit,
                mixes[i],
            ) by {
                assert(attended@.chunk(i, k) == attended@.chunk(i, self.attention.o_proj.weight@.shape[0] as int));
            }
        }
        let (t, Ghost(list)) = self.complete_record(input, &normed, &attended, Ghost(mixes), four, Ghost(before), layer_idx, recorder, unit);
        proof {
            assert forall|b: int, g: int, p: int| 0 <= b < first.batch && 0 <= g < d[1] && 0 <= p < d[2] implies #[trigger] cache.rows(
                layer_idx as int,
                b,
                g,
                p,
            ) == (if b == 0 && position <= p < position + input@.shape[0] {
                (self.key_row(*unit, factor, input@.chunk(p - position, k), g, p), self.value_row(*unit, input@.chunk(p - position, k), g))
            } else {
                first.rows(layer_idx as int, b, g, p)
            }) by {
                if b == 0 && position <= p < position + input@.shape[0] {
                    assert(normed@.chunk(p - position, k) == self.entered(*unit, self.attn_norm, input@.chunk(p - position, k)));
                }
            }
            assert forall|i: int| 0 <= i < input@.shape[0] implies #[trigger] t@.chunk(i, k) == self.step(
                *unit,
                factor,
                input@.chunk(i, k),
                position + i,
                self.attention.seen_by(cache.k@[layer_idx as int]@, 0, filled, position + i, d[2] as int),
                self.attention.seen_by(cache.v@[layer_idx as int]@, 0, filled, position + i, d[2] as int),
            ) by {
                assert(attended@.chunk(i, k) == self.attention.o_proj.sole_image(*unit, mixes[i]));
            }
        }
        t
    }

    /// Runs rows through the layer without a cache as [`TransformerLayer::forward_alone`] does,
    /// and offers a sample of each projection.
    pub fn forward_record_alone<F: Fn(Op, &[u32], &[u32], &[u32]) -> Vec<u32>>(
        &self,
        input: &Tensor,
        layer_idx: usize,
        position: usize,
        factor: Real,
        recorder: &mut ProjectionRecorder,
        unit: &F,
    ) -> (t: Tensor)
        requires
            unit::lawful(*unit),
            old(recorder).wf(),
            input@.wf(),
            input@.dtype is F32,
            input@.shape.len() == 2,
            self.fits(input@.shape[1] as int),
            self.room(input@.shape[0]),
            position + input@.shape[0] <= usize::MAX,
        ensures
            self.gives_alone(*unit, factor, input@, position as int, t@),
            final(recorder).wf(),
            final(recorder).cap_per_projection == old(recorder).cap_per_projection,
            exists|list: Seq<SampleModel>|
                final(recorder).list() == offered_all(old(recorder).list(), old(recorder).cap_per_projection, list) && #[trigger] layer_offered(
                    *unit,
                    *self,
                    layer_idx,
                    transformer::tensor_rows(input@, input@.shape[1] as int),
                    self.alone_mixes(*unit, factor, transformer::tensor_rows(input@, input@.shape[1] as int), position as int),
                    list,
                ),
    {
        let ghost before = recorder.list();
        let ghost k = input@.shape[1] as int;
        let ghost xs = transformer::tensor_rows(input@, k);
        let normed: Tensor = self.enter(&self.attn_norm, input, unit);
        let (attended, four) = self.attention.forward_record_alone(&normed, layer_idx, position, factor, recorder, unit);
        assert(attended@.shape =~= input@.shape);
        let ghost mixes = self.alone_mixes(*unit, factor, xs, position as int);
        proof {
            let own = self.attention.alone_mix(*unit, factor, normed@, position as int);
            assert forall|i: int| 0 <= i < input@.shape[0] implies mixes[i] == own[i] by {
                let start = self.attention.first_seen(i);
                assert(normed@.chunk(i, k) == self.entered(*unit, self.attn_norm, input@.chunk(i, k)));
                self.block_is_between(*unit, factor, input@, normed@, position as int, start, i + 1 - start);
            }
            assert(mixes =~= own);
            assert forall|i: int| 0 <= i < input@.shape[0] implies #[trigger] attended@.chunk(i, k) == self.attention.o_proj.sole_image(
                *unit,
                mixes[i],
            ) by {
                assert(attended@.chunk(i, k) == attended@.chunk(i, self.attention.o_proj.weight@.shape[0] as int));
            }
        }
        let (t, Ghost(list)) = self.complete_record(input, &normed, &attended, Ghost(mixes), four, Ghost(before), layer_idx, recorder, unit);
        proof {
            assert forall|i: int| 0 <= i < input@.shape[0] implies #[trigger] t@.chunk(i, k) == {
                let start = self.attention.first_seen(i);
                self.step(
                    *unit,
                    factor,
                    input@.chunk(i, k),
                    position + i,
                    self.keys_between(*unit, factor, xs, position as int, start, i + 1 - start),
                    self.values_between(*unit, xs, start, i + 1 - start),
                )
            } by {
                assert(attended@.chunk(i, k) == self.attention.o_proj.sole_image(*unit, mixes[i]));
            }
        }
        t
    }
}

impl Network {
    /// The rows that enter layer `l` in a run of the first slot from position `pos` on, given the
    /// cache that it left behind; without a cache the rows see only each other.
    pub open spec fn rows_into<F: Fn(Op, &[u32], &[u32], &[u32]) -> Vec<u32>>(self, unit: F, after: Option<KvCache>, tokens: Seq<u32>, pos: int, l: int) -> Seq<Seq<u32>> {
        Seq::new(
            tokens.len(),
            |i: int|
                match after {
                    Some(c) => self.slot_state(unit, c, 0, tokens, pos, l, i),
                    None => self.state(unit, tokens, l, i),
                },
        )
    }

    /// What comes out of the heads of layer `l` in such a run.
    pub open spec fn mixes_in<F: Fn(Op, &[u32], &[u32], &[u32]) -> Vec<u32>>(self, unit: F, after: Option<KvCache>, tokens: Seq<u32>, pos: int, l: int) -> Seq<Seq<u32>> {
        let xs = self.rows_into(unit, after, tokens, pos, l);
        match after {
            Some(c) => self.layers[l].cached_mixes(
                unit,
                self.factor(),
                xs,
                c.k@[l]@,
                c.v@[l]@,
                attention::at_least_one(pos + tokens.len()),
                pos,
                self.config.max_seq_len as int,
            ),
            None => self.layers[l].alone_mixes(unit, self.factor(), xs, 0),
        }
    }

    /// The samples that layer `l` offers in such a run.
    pub open spec fn offers<F: Fn(Op, &[u32], &[u32], &[u32]) -> Vec<u32>>(
        self,
        unit: F,
        after: Option<KvCache>,
        tokens: Seq<u32>,
        pos: int,
        lists: Seq<Seq<SampleModel>>,
        l: int,
    ) -> bool {
        layer_offered(
            unit,
            self.layers[l],
            l as usize,
            self.rows_into(unit, after, tokens, pos, l),
            self.mixes_in(unit, after, tokens, pos, l),
            lists[l],
        )
    }

    /// Writing to a layer above changes nothing of what a layer offers.
    proof fn offers_below<F: Fn(Op, &[u32], &[u32], &[u32]) -> Vec<u32>>(
        self,
        unit: F,
        a: KvCache,
        b: KvCache,
        tokens: Seq<u32>,
        pos: int,
        lists: Seq<Seq<SampleModel>>,
        l: int,
    )
        requires
            0 <= l,
            forall|j: int| 0 <= j <= l ==> #[trigger] a.k@[j] == b.k@[j],
            forall|j: int| 0 <= j <= l ==> #[trigger] a.v@[j] == b.v@[j],
            self.offers(unit, Some(a), tokens, pos, lists, l),
        ensures
            self.offers(unit, Some(b), tokens, pos, lists, l),
    {
        let x = self.rows_into(unit, Some(a), tokens, pos, l);
        let y = self.rows_into(unit, Some(b), tokens, pos, l);
        assert forall|i: int| 0 <= i < tokens.len() implies x[i] == y[i] by {
            self.slot_state_local(unit, a, b, 0, tokens, pos, l, i);
        }
        assert(x =~= y);
        assert(a.k@[l] == b.k@[l] && a.v@[l] == b.v@[l]);
    }
}

impl Model {
    /// Runs a block of tokens in the first slot as [`Model::forward_hidden`] does, and offers a
    /// sample of each projection of each layer.
    pub fn forward_record<F: Fn(Op, &[u32], &[u32], &[u32]) -> Vec<u32>>(
        &mut self,
        token_ids: &[u32],
        recorder: &mut ProjectionRecorder,
        unit: &F,
    ) -> (t: Tensor)
        requires
            unit::lawful(*unit),
            old(recorder).wf(),
            old(self).ready(0, token_ids@),
        ensures
            old(self).stepped(*unit, *final(self), 0, token_ids@),
            t@.wf(),
            t@.dtype is F32,
            t@.shape == seq![token_ids@.len() as usize, old(self).config.hidden_size],
            forall|i: int| 0 <= i < token_ids@.len() ==> #[trigger] t@.chunk(i, old(self).network().hidden()) == old(self).norm.image(
                *unit,
                old(self).last_row(*unit, 0, token_ids@, final(self).cache, i),
            ),
            final(recorder).wf(),
            final(recorder).cap_per_projection == old(recorder).cap_per_projection,
            old(self).recorded(*unit, final(self).cache, token_ids@, *old(recorder), *final(recorder)),
    {
        let ghost net = self.network();
        let ghost first = *self;
        let ghost start = *recorder;
        let n: usize = token_ids.len();
        let ghost tokens = token_ids@;
        let pos: usize = match &self.cache {
            Some(c) => c.seq_len(0),
            None => 0,
        };
        assert(n == token_ids@.len());
        let mut positions: Vec<usize> = Vec::new();
        let mut i: usize = 0;
        while i < n
            invariant
                i <= n,
                pos + n <= usize::MAX,
                positions@.len() == i,
                forall|j: int| 0 <= j < i ==> #[trigger] positions@[j] == pos + j,
            decreases n - i,
        {
            positions.push(pos + i);
            i = i + 1;
        }
        let rows: Tensor = self.embed(token_ids, positions.as_slice(), unit);
        let hidden: Tensor = match self.cache.take() {
            Some(mut cache) => {
                let ghost before = cache;
                cache.reserve(0, pos, n);
                let ghost reserved = cache;
                proof {
                    assert(self.network() == net);
                    assert(net.cache_fits(reserved));
                }
                let (hidden, Ghost(lists)) = self.record_block(rows, &mut cache, pos, Ghost(tokens), recorder, unit);
                proof {
                    net.slot_ran_from(*unit, reserved, before, cache, 0, tokens, pos as int);
                    assert forall|b: int| 0 <= b < before.batch && b != 0 implies #[trigger] net.slot_kept(before, cache, b) by {
                        assert forall|j: int, g: int, p: int|
                            0 <= j < net.layers.len() && 0 <= g < net.config.kv_heads() && 0 <= p
                                < net.config.max_seq_len implies #[trigger] super::network::row_kept(reserved, cache, j, b, g, p) by {}
                        net.slot_kept_from(reserved, before, cache, b);
                    }
                    assert(net.advanced(*unit, before, cache, 0, tokens));
                }
                self.cache = Some(cache);
                proof {
                    assert(first.recorded(*unit, self.cache, tokens, start, *recorder)) by {
                        assert(net.all_offer(*unit, self.cache, tokens, pos as int, lists));
                    }
                }
                hidden
            },
            None => {
                let (hidden, Ghost(lists)) = self.record_alone(rows, Ghost(tokens), recorder, unit);
                proof {
                    assert(first.cache is None && self.cache is None && pos == 0);
                    assert(net.all_offer(*unit, None, tokens, 0, lists));
                    assert(first.end(0) == 0);
                    assert(first.recorded(*unit, self.cache, tokens, start, *recorder)) by {
                        assert(net.all_offer(*unit, self.cache, tokens, pos as int, lists));
                    }
                }
                hidden
            },
        };
        proof {
            assert(self.network() == net);
            shape::product_two(n, self.config.hidden_size);
            vstd::arithmetic::div_mod::lemma_div_by_multiple(n as int, self.config.hidden_size as int);
        }
        self.norm.forward(&hidden, unit)
    }

    /// The recorder after the layers have offered their samples of a run, one layer after the
    /// other.
    pub open spec fn recorded<F: Fn(Op, &[u32], &[u32], &[u32]) -> Vec<u32>>(
        self,
        unit: F,
        after: Option<KvCache>,
        tokens: Seq<u32>,
        before: ProjectionRecorder,
        recorder: ProjectionRecorder,
    ) -> bool {
        exists|lists: Seq<Seq<SampleModel>>|
            #[trigger] self.network().all_offer(unit, after, tokens, self.end(0), lists) && recorder.list() == offered_layers(
                before.list(),
                before.cap_per_projection,
                lists,
            )
    }

    /// Runs the rows of a block through all layers, and lets each offer its samples.
    fn record_block<F: Fn(Op, &[u32], &[u32], &[u32]) -> Vec<u32>>(
        &self,
        rows: Tensor,
        cache: &mut KvCache,
        pos: usize,
        Ghost(tokens): Ghost<Seq<u32>>,
        recorder: &mut ProjectionRecorder,
        unit: &F,
    ) -> (r: (Tensor, Ghost<Seq<Seq<SampleModel>>>))
        requires
            unit::lawful(*unit),
            old(recorder).wf(),
            self.network().fits(),
            self.network().room(tokens.len() as usize),
            tokens.len() <= usize::MAX,
            self.network().cache_fits(*old(cache)),
            0 < old(cache).batch,
            0 < self.config.max_seq_len,
            pos + tokens.len() <= self.config.max_seq_len,
            old(cache).seq_lens@[0] == pos + tokens.len(),
            rows@.wf(),
            rows@.dtype is F32,
            rows@.shape == seq![tokens.len() as usize, self.config.hidden_size],
            forall|i: int| 0 <= i < tokens.len() ==> #[trigger] rows@.chunk(i, self.config.hidden_size as int) == self.network().entry(
                *unit,
                tokens[i],
                pos + i,
            ),
        ensures
            r.0@.wf(),
            r.0@.dtype is F32,
            r.0@.shape == seq![tokens.len() as usize, self.config.hidden_size],
            self.network().rows_enter(*unit, *final(cache), 0, tokens, pos as int, self.live().len() as int, r.0@),
            self.network().ran_below(*unit, *old(cache), *final(cache), 0, tokens, pos as int, self.live().len() as int),
            final(recorder).wf(),
            final(recorder).cap_per_projection == old(recorder).cap_per_projection,
            self.network().all_offer(*unit, Some(*final(cache)), tokens, pos as int, r.1@),
            final(recorder).list() == offered_layers(old(recorder).list(), old(recorder).cap_per_projection, r.1@),
    {
        let ghost net = self.network();
        let ghost reserved = *cache;
        let factor: Real = self.config.rope_factor();
        let layers: &Vec<TransformerLayer> = self.live_layers();
        let count: usize = layers.len();
        let mut hidden: Tensor = rows;
        let ghost mut lists: Seq<Seq<SampleModel>> = Seq::empty();
        proof {
            reveal(Network::slot_state);
        }
        let mut l: usize = 0;
        while l < count
            invariant
                unit::lawful(*unit),
                net == self.network(),
                net.fits(),
                net.room(tokens.len() as usize),
                tokens.len() <= usize::MAX,
                factor == net.factor(),
                count == layers@.len(),
                layers@ == net.layers,
                l <= count,
                0 < reserved.batch,
                0 < net.config.max_seq_len,
                pos + tokens.len() <= net.config.max_seq_len,
                reserved.seq_lens@[0] == pos + tokens.len(),
                hidden@.wf(),
                hidden@.dtype is F32,
                hidden@.shape == seq![tokens.len() as usize, net.config.hidden_size],
                net.rows_enter(*unit, *cache, 0, tokens, pos as int, l as int, hidden@),
                net.ran_below(*unit, reserved, *cache, 0, tokens, pos as int, l as int),
                recorder.wf(),
                recorder.cap_per_projection == old(recorder).cap_per_projection,
                lists.len() == l,
                forall|j: int| 0 <= j < l ==> #[trigger] net.offers(*unit, Some(*cache), tokens, pos as int, lists, j),
                recorder.list() == offered_layers(old(recorder).list(), recorder.cap_per_projection, lists),
            decreases count - l,
        {
            let ghost mid = *cache;
            let ghost entering = hidden@;
            let ghost held = recorder.list();
            proof {
                assert(net.layer_fits(net.layers[l as int]));
                assert(net.layers[l as int].room(tokens.len() as usize));
                assert(super::cache::shaped(
                    mid.k@[l as int]@,
                    mid.batch,
                    net.config.kv_heads(),
                    net.config.max_seq_len,
                    net.config.head_width(),
                ));
            }
            hidden = layers[l].forward_record(&hidden, cache, l, pos, factor, recorder, unit);
            proof {
                net.rows_leave(*unit, mid, *cache, 0, tokens, pos as int, l as int, entering, hidden@);
                net.layer_ran(*unit, reserved, mid, *cache, 0, tokens, pos as int, l as int, entering, hidden@);
                let xs = transformer::tensor_rows(entering, net.hidden());
                let own = net.rows_into(*unit, Some(*cache), tokens, pos as int, l as int);
                assert forall|i: int| 0 <= i < tokens.len() implies xs[i] == own[i] by {
                    assert(entering.chunk(i, net.hidden()) == net.slot_state(*unit, mid, 0, tokens, pos as int, l as int, i));
                    net.slot_state_local(*unit, *cache, mid, 0, tokens, pos as int, l as int, i);
                }
                assert(xs =~= own);
                let list = choose|list: Seq<SampleModel>|
                    recorder.list() == offered_all(held, recorder.cap_per_projection, list) && #[trigger] layer_offered(
                        *unit,
                        net.layers[l as int],
                        l,
                        xs,
                        net.mixes_in(*unit, Some(*cache), tokens, pos as int, l as int),
                        list,
                    );
                let longer = lists.push(list);
                assert(longer.drop_last() =~= lists);
                assert forall|j: int| 0 <= j < l + 1 implies #[trigger] net.offers(*unit, Some(*cache), tokens, pos as int, longer, j) by {
                    if j < l {
                        assert(net.offers(*unit, Some(mid), tokens, pos as int, lists, j));
                        assert(longer[j] == lists[j]);
                        assert(net.offers(*unit, Some(mid), tokens, pos as int, longer, j));
                        net.offers_below(*unit, mid, *cache, tokens, pos as int, longer, j);
                    }
                }
                lists = longer;
            }
            l = l + 1;
        }
        (hidden, Ghost(lists))
    }

    /// Runs the rows of a block through all layers without a cache, and lets each offer its
    /// samples.
    fn record_alone<F: Fn(Op, &[u32], &[u32], &[u32]) -> Vec<u32>>(&self, rows: Tensor, Ghost(tokens): Ghost<Seq<u32>>, recorder: &mut ProjectionRecorder, unit: &F) -> (r: (
        Tensor,
        Ghost<Seq<Seq<SampleModel>>>,
    ))
        requires
            unit::lawful(*unit),
            old(recorder).wf(),
            self.network().fits(),
            self.network().room(tokens.len() as usize),
            tokens.len() <= usize::MAX,
            rows@.wf(),
            rows@.dtype is F32,
            rows@.shape == seq![tokens.len() as usize, self.config.hidden_size],
            forall|i: int| 0 <= i < tokens.len() ==> #[trigger] rows@.chunk(i, self.config.hidden_size as int) == self.network().entry(
                *unit,
                tokens[i],
                i,
            ),
        ensures
            r.0@.wf(),
            r.0@.dtype is F32,
            r.0@.shape == seq![tokens.len() as usize, self.config.hidden_size],
            forall|i: int| 0 <= i < tokens.len() ==> #[trigger] r.0@.chunk(i, self.config.hidden_size as int) == self.network().state(
                *unit,
                tokens,
                self.live().len() as int,
                i,
            ),
            final(recorder).wf(),
            final(recorder).cap_per_projection == old(recorder).cap_per_projection,
            self.network().all_offer(*unit, None, tokens, 0, r.1@),
            final(recorder).list() == offered_layers(old(recorder).list(), old(recorder).cap_per_projection, r.1@),
    {
        let ghost net = self.network();
        let ghost k = net.hidden();
        let factor: Real = self.config.rope_factor();
        let layers: &Vec<TransformerLayer> = self.live_layers();
        let count: usize = layers.len();
        let mut hidden: Tensor = rows;
        let ghost mut lists: Seq<Seq<SampleModel>> = Seq::empty();
        proof {
            reveal(Network::state);
        }
        let mut l: usize = 0;
        while l < count
            invariant
                unit::lawful(*unit),
                net == self.network(),
                net.fits(),
                net.room(tokens.len() as usize),
                tokens.len() <= usize::MAX,
                k == net.hidden(),
                factor == net.factor(),
                count == layers@.len(),
                layers@ == net.layers,
                l <= count,
                hidden@.wf(),
                hidden@.dtype is F32,
                hidden@.shape == seq![tokens.len() as usize, net.config.hidden_size],
                forall|i: int| 0 <= i < tokens.len() ==> #[trigger] hidden@.chunk(i, k) == net.state(*unit, tokens, l as int, i),
                recorder.wf(),
                recorder.cap_per_projection == old(recorder).cap_per_projection,
                lists.len() == l,
                forall|j: int| 0 <= j < l ==> #[trigger] net.offers(*unit, None, tokens, 0, lists, j),
                recorder.list() == offered_layers(old(recorder).list(), recorder.cap_per_projection, lists),
            decreases count - l,
        {
            let ghost entering = hidden@;
            let ghost held = recorder.list();
            proof {
                assert(net.layer_fits(net.layers[l as int]));
                assert(net.layers[l as int].room(tokens.len() as usize));
            }
            hidden = layers[l].forward_record_alone(&hidden, l, 0, factor, recorder, unit);
            proof {
                let xs = transformer::tensor_rows(entering, k);
                let own = net.rows_into(*unit, None, tokens, 0, l as int);
                assert forall|i: int| 0 <= i < tokens.len() implies xs[i] == own[i] by {
                    assert(entering.chunk(i, k) == net.state(*unit, tokens, l as int, i));
                }
                assert(xs =~= own);
                net.alone_leaves(*unit, tokens, l as int, entering, hidden@);
                let list = choose|list: Seq<SampleModel>|
                    recorder.list() == offered_all(held, recorder.cap_per_projection, list) && #[trigger] layer_offered(
                        *unit,
                        net.layers[l as int],
                        l,
                        xs,
                        net.mixes_in(*unit, None, tokens, 0, l as int),
                        list,
                    );
                let longer = lists.push(list);
                assert(longer.drop_last() =~= lists);
                assert forall|j: int| 0 <= j < l + 1 implies #[trigger] net.offers(*unit, None, tokens, 0, longer, j) by {
                    if j < l {
                        assert(net.offers(*unit, None, tokens, 0, lists, j));
                        assert(longer[j] == lists[j]);
                    }
                }
                lists = longer;
            }
            l = l + 1;
        }
        (hidden, Ghost(lists))
    }
}

impl Network {
    /// Each layer offers its samples of a run.
    pub open spec fn all_offer<F: Fn(Op, &[u32], &[u32], &[u32]) -> Vec<u32>>(self, unit: F, after: Option<KvCache>, tokens: Seq<u32>, pos: int, lists: Seq<Seq<SampleModel>>) -> bool {
        &&& lists.len() == self.layers.len()
        &&& forall|l: int| 0 <= l < lists.len() ==> #[trigger] self.offers(unit, after, tokens, pos, lists, l)
    }
}

} // verus!
