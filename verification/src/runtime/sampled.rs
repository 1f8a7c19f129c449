//! Samples of projections.
use super::config::Activation;
use super::pass;
use super::record;
use super::record::{ProjectionKind, SampleModel};
use super::transformer::TransformerLayer;
use super::unit::Op;
use vstd::prelude::*;

verus! {

/// A sample is kept whole as long as the rows of its layer and kind stay within the limit, and
/// otherwise left out whole; a limit of zero is none. Rows of other layers and kinds do not count.
pub proof fn samples_are_kept_within_the_limit(samples: Seq<SampleModel>, cap: usize, s: SampleModel, layer: usize, kind: ProjectionKind)
    ensures
        cap == 0 ==> record::offered(samples, cap, s) == samples.push(s),
        record::rows_for(samples, s.layer, s.kind) + s.input.shape[0] <= cap ==> record::offered(samples, cap, s) == samples.push(s),
        cap > 0 && record::rows_for(samples, s.layer, s.kind) + s.input.shape[0] > cap ==> record::offered(samples, cap, s) == samples,
        record::rows_for(samples.push(s), layer, kind) == record::rows_for(samples, layer, kind) + (if s.layer == layer && s.kind == kind {
            s.input.shape[0] as nat
        } else {
            0
        }),
        record::rows_for(Seq::empty(), layer, kind) == 0,
{
    assert(samples.push(s).drop_last() =~= samples);
}

/// What is kept is a selection of what was offered, in its order, after what was there.
pub proof fn samples_keep_their_order(samples: Seq<SampleModel>, cap: usize, list: Seq<SampleModel>, s: SampleModel, i: int)
    ensures
        samples.len() <= record::offered_all(samples, cap, list).len() <= samples.len() + list.len(),
        0 <= i < samples.len() ==> record::offered_all(samples, cap, list)[i] == samples[i],
        record::offered_all(samples, cap, list.push(s)) == record::offered(record::offered_all(samples, cap, list), cap, s),
        record::offered_all(samples, cap, Seq::empty()) == samples,
    decreases list.len(),
{
    assert(list.push(s).drop_last() =~= list);
    if list.len() > 0 {
        samples_keep_their_order(samples, cap, list.drop_last(), s, i);
    }
}

/// A layer offers one sample for each of its projections: queries, keys, values and output, up, gate
/// where it has one, and down. A sample holds the number of the layer and, row by row, what the
/// projection was handed and what it made of it.
pub proof fn each_projection_is_sampled<F: Fn(Op, &[u32], &[u32], &[u32]) -> Vec<u32>>(
    unit: F,
    layer: TransformerLayer,
    number: usize,
    xs: Seq<Seq<u32>>,
    mixes: Seq<Seq<u32>>,
    list: Seq<SampleModel>,
    r: int,
)
    requires
        record::layer_offered(unit, layer, number, xs, mixes, list),
        0 <= r < xs.len(),
    ensures
        layer.config.activation is Gelu <==> list.len() == 6,
        layer.config.activation !is Gelu <==> list.len() == 7,
        ({
            let a = layer.taken_by_block(unit, layer.attn_norm, xs[r]);
            let h = pass::of_two(unit, Op::Plus, xs[r], layer.attention.o_proj.sole_image(unit, mixes[r]));
            let b = layer.taken_by_block(unit, layer.ffn_norm, h);
            let up = layer.ffn_up.sole_image(unit, b);
            let inner = if layer.config.activation is Gelu {
                pass::of_two(unit, Op::Gate(Activation::Gelu), up, Seq::empty())
            } else {
                pass::of_two(unit, Op::Gate(layer.config.activation), layer.ffn_gate.sole_image(unit, b), up)
            };
            let last = list.len() - 1;
            &&& sampled(list[0], number, ProjectionKind::Q, r, a, layer.attention.q_proj.sole_image(unit, a))
            &&& sampled(list[1], number, ProjectionKind::K, r, a, layer.attention.k_proj.sole_image(unit, a))
            &&& sampled(list[2], number, ProjectionKind::V, r, a, layer.attention.v_proj.sole_image(unit, a))
            &&& sampled(list[3], number, ProjectionKind::O, r, mixes[r], layer.attention.o_proj.sole_image(unit, mixes[r]))
            &&& sampled(list[4], number, ProjectionKind::Up, r, b, up)
            &&& layer.config.activation !is Gelu ==> sampled(list[5], number, ProjectionKind::Gate, r, b, layer.ffn_gate.sole_image(unit, b))
            &&& sampled(list[last], number, ProjectionKind::Down, r, inner, layer.ffn_down.sole_image(unit, inner))
        }),
{
    let n = list.len() as int;
    let ks = record::kinds(layer);
    assert forall|i: int| 0 <= i < n implies #[trigger] list[i].input.chunk(r, list[i].input.shape[1] as int) == layer.handed(
        unit,
        ks[i],
        xs[r],
        mixes[r],
    ) && list[i].target.chunk(r, list[i].target.shape[1] as int) == record::projection(layer, ks[i]).sole_image(
        unit,
        layer.handed(unit, ks[i], xs[r], mixes[r]),
    ) by {
        let s = list[i];
        assert(record::sample_of(unit, layer, number, ks[i], xs, mixes, s));
        assert(s.target.chunk(r, record::projection(layer, ks[i]).weight@.shape[0] as int) == record::projection(layer, ks[i]).sole_image(
            unit,
            s.input.chunk(r, s.input.shape[1] as int),
        ));
    }
    assert forall|i: int| 0 <= i < n implies list[i].layer == number && #[trigger] list[i].kind == ks[i] by {
        assert(record::sample_of(unit, layer, number, ks[i], xs, mixes, list[i]));
    }
    assert(list[0].input.chunk(r, list[0].input.shape[1] as int) == layer.handed(unit, ks[0], xs[r], mixes[r]));
    assert(list[1].input.chunk(r, list[1].input.shape[1] as int) == layer.handed(unit, ks[1], xs[r], mixes[r]));
    assert(list[2].input.chunk(r, list[2].input.shape[1] as int) == layer.handed(unit, ks[2], xs[r], mixes[r]));
    assert(list[3].input.chunk(r, list[3].input.shape[1] as int) == layer.handed(unit, ks[3], xs[r], mixes[r]));
    assert(list[4].input.chunk(r, list[4].input.shape[1] as int) == layer.handed(unit, ks[4], xs[r], mixes[r]));
    assert(list[5].input.chunk(r, list[5].input.shape[1] as int) == layer.handed(unit, ks[5], xs[r], mixes[r]));
    assert(list[n - 1].input.chunk(r, list[n - 1].input.shape[1] as int) == layer.handed(unit, ks[n - 1], xs[r], mixes[r]));
    assert(list[0].kind is Q && list[1].kind is K && list[2].kind is V && list[3].kind is O && list[4].kind is Up);
    assert(list[5].kind == ks[5] && list[n - 1].kind == ks[n - 1]);
}

/// A sample of this kind holds these two rows at a place.
pub open spec fn sampled(s: SampleModel, number: usize, kind: ProjectionKind, r: int, given: Seq<u32>, made: Seq<u32>) -> bool {
    &&& s.layer == number
    &&& s.kind == kind
    &&& s.input.chunk(r, s.input.shape[1] as int) == given
    &&& s.target.chunk(r, s.target.shape[1] as int) == made
}

} // verus!
