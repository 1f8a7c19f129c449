//! Filling a model with the tensors of a file.
use super::assign;
use super::bits;
use super::bits::{QuantConfig, QuantizedTensor};
use super::config::ModelConfig;
use super::model::Model;
use super::network::Network;
use super::safetensors;
use super::safetensors::{HeaderModel, LoadError, SafeTensorsLoader};
use super::weights;
use super::weights::WeightTarget;
use crate::tensor::tensor::Tensor;
use crate::text;
use vstd::prelude::*;

verus! {

/// What became of the tensors of a file.
#[derive(Debug)]
pub struct LoadingStats {
    pub loaded: usize,
    pub skipped: Vec<String>,
}

impl Default for LoadingStats {
    fn default() -> (r: Self)
        ensures
            r.loaded == 0,
            r.skipped@.len() == 0,
    {
        LoadingStats { loaded: 0, skipped: Vec::new() }
    }
}

/// What loading and placing one tensor does: whether it succeeds, and the parts after it. A tensor
/// that cannot be loaded, or that has no place, leaves everything as it was.
pub open spec fn brought(
    h: HeaderModel,
    data: Seq<u8>,
    config: ModelConfig,
    name: Seq<char>,
    before: Network,
    after: Network,
    ok: bool,
) -> bool {
    ||| exists|e: LoadError| #[trigger] safetensors::loads(h, data, name, Err(e)) && !ok && after == before
    ||| exists|target: WeightTarget, t: Tensor|
        #[trigger] weights::answers(target, name, weights::family_target(name, config.architecture@)) && #[trigger] safetensors::loads(
            h,
            data,
            name,
            Ok(t),
        ) && assign::assigned(before, after, target, t, ok)
}

/// The tensors of a file are brought one by one, in the order of the header.
pub open spec fn brought_along(h: HeaderModel, data: Seq<u8>, config: ModelConfig, trace: Seq<Network>, done: Seq<bool>) -> bool {
    &&& trace.len() == done.len() + 1
    &&& done.len() <= h.tensors.len()
    &&& forall|i: int| 0 <= i < done.len() ==> #[trigger] brought_at(h, data, config, trace, done, i)
}

/// The step at a place.
pub open spec fn brought_at(h: HeaderModel, data: Seq<u8>, config: ModelConfig, trace: Seq<Network>, done: Seq<bool>, i: int) -> bool {
    brought(h, data, config, h.tensors[i].0, trace[i], trace[i + 1], done[i])
}

/// How many tensors were placed.
pub open spec fn successes(done: Seq<bool>) -> nat
    decreases done.len(),
{
    if done.len() == 0 {
        0
    } else if done.last() {
        successes(done.drop_last()) + 1
    } else {
        successes(done.drop_last())
    }
}

/// The names of those that were not placed.
pub open spec fn left_out(h: HeaderModel, done: Seq<bool>) -> Seq<Seq<char>>
    decreases done.len(),
{
    if done.len() == 0 {
        Seq::empty()
    } else if done.last() {
        left_out(h, done.drop_last())
    } else {
        left_out(h, done.drop_last()).push(h.tensors[done.len() - 1].0)
    }
}

/// Every tensor is counted once: as placed or as left out.
pub proof fn all_accounted(h: HeaderModel, done: Seq<bool>)
    ensures
        successes(done) + left_out(h, done).len() == done.len(),
    decreases done.len(),
{
    if done.len() > 0 {
        all_accounted(h, done.drop_last());
    }
}

/// The tensor at a place of the header finds its place in a model: its data are there and can be
/// read, its name is known, and its shape fits a slot that the model has.
pub open spec fn finds_place(h: HeaderModel, data: Seq<u8>, config: ModelConfig, parts: Network, i: int) -> bool {
    let (name, info) = h.tensors[i];
    &&& safetensors::in_bounds(info, data.len() as int)
    &&& safetensors::stored_as(info.dtype) is Some
    &&& weights::family_target(name, config.architecture@) matches Some(target) && assign::placeable(parts, target) && assign::fits(
        target,
        info.shape,
        parts.config,
    )
}

/// Which of the tensors of a file find their places in a model.
pub open spec fn places_found(h: HeaderModel, data: Seq<u8>, config: ModelConfig, parts: Network) -> Seq<bool> {
    Seq::new(h.tensors.len(), |i: int| finds_place(h, data, config, parts, i))
}

/// Bringing tensors keeps the places, and each tensor is placed where it finds its place in the
/// model as it was at first.
proof fn brought_as_found(h: HeaderModel, data: Seq<u8>, config: ModelConfig, trace: Seq<Network>, done: Seq<bool>, n: int)
    requires
        safetensors::names_differ(h.tensors),
        brought_along(h, data, config, trace, done),
        0 <= n <= done.len(),
    ensures
        assign::same_places(trace[n], trace[0]),
        forall|i: int| 0 <= i < n ==> #[trigger] done[i] == finds_place(h, data, config, trace[0], i),
    decreases n,
{
    if n > 0 {
        let i = n - 1;
        brought_as_found(h, data, config, trace, done, i);
        assert(brought_at(h, data, config, trace, done, i));
        let (name, info) = h.tensors[i];
        safetensors::found_at_its_place(h.tensors, i);
        assert(safetensors::find(h.tensors, name) == Some(info));
        let before = trace[i];
        let after = trace[n];
        if exists|e: LoadError| #[trigger] safetensors::loads(h, data, name, Err(e)) && !done[i] && after == before {
        } else {
            let (target, t) = choose|target: WeightTarget, t: Tensor|
                #[trigger] weights::answers(target, name, weights::family_target(name, config.architecture@)) && #[trigger] safetensors::loads(
                    h,
                    data,
                    name,
                    Ok(t),
                ) && assign::assigned(before, after, target, t, done[i]);
            assign::assigned_keeps_configs(before, after, target, t, done[i]);
            assign::assigned_where_placeable(before, after, target, t, done[i]);
            weights::family_target_known(name, config.architecture@);
            if let Some((slot, l)) = assign::slot_of(target) {
                if l < before.layers.len() {
                    assert(before.layers[l as int].attention.q_norm is Some <==> trace[0].layers[l as int].attention.q_norm is Some);
                }
            }
        }
    }
}

/// What loading a file promises, in one place. Every tensor is placed or named as left out, by
/// whether it finds its place; the readout is the table of embeddings where it is tied or the file
/// has none; and the layers are packed where that is asked for, and only there.
pub proof fn loading_keeps_its_word<Q: Fn(&Tensor, QuantConfig) -> QuantizedTensor>(
    h: HeaderModel,
    data: Seq<u8>,
    config: ModelConfig,
    wanted: bool,
    pack: Q,
    before: Model,
    after: Model,
    stats: LoadingStats,
)
    requires
        safetensors::names_differ(h.tensors),
        before.bit_layers is None,
        loaded_from(h, data, config, wanted, pack, before, after, stats),
    ensures
        stats.loaded + stats.skipped@.len() == h.tensors.len(),
        stats.loaded == successes(places_found(h, data, config, before.parts())),
        text::texts(stats.skipped@) == left_out(h, places_found(h, data, config, before.parts())),
        config.tie_word_embeddings || !has_readout(h, config, h.tensors.len() as int) ==> after.lm_head.weight@ == after.embedding.weight@,
        wanted ==> after.bit_layers is Some && after.bit_layers.unwrap()@.len() == before.layers@.len() && after.layers@.len() == 0,
        !wanted ==> after.bit_layers is None && after.layers@.len() == before.layers@.len(),
        after.config == before.config,
        after.cache == before.cache,
{
    let (trace, done, last) = choose|trace: Seq<Network>, done: Seq<bool>, last: Network|
        {
            &&& #[trigger] brought_along(h, data, config, trace, done)
            &&& done.len() == h.tensors.len()
            &&& trace[0] == before.parts()
            &&& stats.loaded == successes(done)
            &&& text::texts(stats.skipped@) == left_out(h, done)
            &&& #[trigger] tied(trace.last(), last, ties(h, config))
            &&& settled(last, before, after, wanted, pack)
        };
    brought_as_found(h, data, config, trace, done, done.len() as int);
    assert(done =~= places_found(h, data, config, before.parts()));
    all_accounted(h, done);
    assert(text::texts(stats.skipped@).len() == stats.skipped@.len());
    assert(after.parts().embedding == last.embedding);
}

/// The name stands for the readout.
pub open spec fn is_readout(name: Seq<char>, config: ModelConfig) -> bool {
    weights::family_target(name, config.architecture@) == Some(WeightTarget::LmHead)
}

/// One of the first tensors is the readout.
pub open spec fn has_readout(h: HeaderModel, config: ModelConfig, n: int) -> bool {
    exists|i: int| 0 <= i < n && is_readout(#[trigger] h.tensors[i].0, config)
}

/// The readout is tied: the configuration asks for it, or the file has no readout.
pub open spec fn ties(h: HeaderModel, config: ModelConfig) -> bool {
    config.tie_word_embeddings || !has_readout(h, config, h.tensors.len() as int)
}

/// The tensors of a file can be loaded, and placed or refused in a model whose configuration is
/// `own`.
pub open spec fn bringable(h: HeaderModel, data: Seq<u8>, config: ModelConfig, own: ModelConfig) -> bool {
    forall|i: int| 0 <= i < h.tensors.len() ==> #[trigger] bringable_at(h, data, config, own, i)
}

/// The tensor at a place can be loaded, and placed or refused.
pub open spec fn bringable_at(h: HeaderModel, data: Seq<u8>, config: ModelConfig, own: ModelConfig, i: int) -> bool {
    let name = h.tensors[i].0;
    &&& safetensors::loadable(h, data, name)
    &&& forall|target: WeightTarget, t: Tensor|
        #[trigger] weights::answers(target, name, weights::family_target(name, config.architecture@)) && #[trigger] safetensors::loads(
            h,
            data,
            name,
            Ok(t),
        ) ==> assign::assignable(target, t@, own)
}

/// What can be loaded into a model can be loaded into one with the same configuration.
pub proof fn same_bringable(h: HeaderModel, data: Seq<u8>, config: ModelConfig, own: ModelConfig, other: ModelConfig)
    requires
        other.same(own),
        bringable(h, data, config, own),
    ensures
        bringable(h, data, config, other),
{
    assert forall|i: int| 0 <= i < h.tensors.len() implies #[trigger] bringable_at(h, data, config, other, i) by {
        assert(bringable_at(h, data, config, own, i));
        let name = h.tensors[i].0;
        assert forall|target: WeightTarget, t: Tensor|
            #[trigger] weights::answers(target, name, weights::family_target(name, config.architecture@)) && #[trigger] safetensors::loads(
                h,
                data,
                name,
                Ok(t),
            ) implies assign::assignable(target, t@, other) by {
            assert(assign::assignable(target, t@, own));
        }
    }
}

/// The parts with the readout tied to the table of embeddings, or left as they are.
pub open spec fn tied(before: Network, after: Network, tie: bool) -> bool {
    if tie {
        &&& after == (Network { lm_head: after.lm_head, ..before })
        &&& after.lm_head.weight@ == before.embedding.weight@
        &&& after.lm_head.bias == before.lm_head.bias
        &&& after.lm_head.bits == before.lm_head.bits
    } else {
        after == before
    }
}

/// What filling a model does: the tensors are brought one by one, those that were placed are
/// counted and the others named, the readout is tied where that is due, and the layers are packed
/// where that is wanted.
pub open spec fn loaded_from<Q: Fn(&Tensor, QuantConfig) -> QuantizedTensor>(
    h: HeaderModel,
    data: Seq<u8>,
    config: ModelConfig,
    wanted: bool,
    pack: Q,
    before: Model,
    after: Model,
    stats: LoadingStats,
) -> bool {
    exists|trace: Seq<Network>, done: Seq<bool>, last: Network|
        {
            &&& #[trigger] brought_along(h, data, config, trace, done)
            &&& done.len() == h.tensors.len()
            &&& trace[0] == before.parts()
            &&& stats.loaded == successes(done)
            &&& text::texts(stats.skipped@) == left_out(h, done)
            &&& #[trigger] tied(trace.last(), last, ties(h, config))
            &&& settled(last, before, after, wanted, pack)
        }
}

/// Fills a model with the tensors of a file, ties the readout where it has no weight of its own,
/// and packs the layers where that is asked for.
pub fn load_safetensors_weights<Q: Fn(&Tensor, QuantConfig) -> QuantizedTensor>(
    model: &mut Model,
    loader: &SafeTensorsLoader,
    config: &ModelConfig,
    quantize: Option<&str>,
    pack: &Q,
) -> (stats: LoadingStats)
    requires
        bringable(loader.header@, loader.data@, *config, old(model).config),
        bits::packs(*pack),
        bits::storable_norms(old(model).layers@),
    ensures
        loaded_from(
            loader.header@,
            loader.data@,
            *config,
            quantize matches Some(q) && q@ == "ternary"@,
            *pack,
            *old(model),
            *final(model),
            stats,
        ),
{
    let h: &safetensors::SafeTensorsHeader = &loader.header;
    let ghost head = h@;
    let n: usize = h.tensors.len();
    let mut stats: LoadingStats = LoadingStats::default();
    let mut lm_head_loaded: bool = false;
    let ghost mut trace: Seq<Network> = seq![model.parts()];
    let ghost mut done: Seq<bool> = Seq::empty();
    let mut i: usize = 0;
    assert(text::texts(stats.skipped@) =~= left_out(head, done));
    while i < n
        invariant
            *h == loader.header,
            head == h@,
            n == h.tensors@.len(),
            i <= n,
            done.len() == i,
            brought_along(head, loader.data@, *config, trace, done),
            trace[0] == old(model).parts(),
            trace[i as int] == model.parts(),
            model.config == old(model).config,
            model.bit_layers == old(model).bit_layers,
            model.cache == old(model).cache,
            bits::storable_norms(model.layers@),
            bringable(head, loader.data@, *config, old(model).config),
            stats.loaded == successes(done),
            stats.loaded <= i,
            text::texts(stats.skipped@) == left_out(head, done),
            lm_head_loaded == has_readout(head, *config, i as int),
        decreases n - i,
    {
        let ghost before = model.parts();
        let ghost names = head.tensors[i as int].0;
        let ghost skipped = stats.skipped@;
        let name: &str = h.tensors[i].0.as_str();
        assert(name@ == names);
        assert(bringable_at(head, loader.data@, *config, old(model).config, i as int));
        let target: WeightTarget = weights::map_weight_for_architecture(name, config);
        proof {
            weights::family_target_known(names, config.architecture@);
            assert(target is LmHead == is_readout(names, *config));
        }
        if matches!(target, WeightTarget::LmHead) {
            lm_head_loaded = true;
        }
        let ok: bool = match loader.load_tensor(name) {
            Ok(t) => {
                let ok: bool = assign::apply_weight_target(model, &target, t);
                proof {
                    assign::assigned_keeps_configs(before, model.parts(), target, t, ok);
                }
                assert(weights::answers(target, names, weights::family_target(names, config.architecture@)));
                assert(safetensors::loads(head, loader.data@, names, Ok(t)));
                ok
            },
            Err(e) => {
                assert(safetensors::loads(head, loader.data@, names, Err(e)));
                false
            },
        };
        assert(brought(head, loader.data@, *config, names, before, model.parts(), ok));
        if ok {
            stats.loaded = stats.loaded + 1;
        } else {
            stats.skipped.push(name.to_owned());
        }
        proof {
            let longer = trace.push(model.parts());
            let more = done.push(ok);
            assert(more.drop_last() =~= done);
            assert forall|k: int| 0 <= k < more.len() implies #[trigger] brought_at(head, loader.data@, *config, longer, more, k) by {
                if k < i {
                    assert(brought_at(head, loader.data@, *config, trace, done, k));
                }
            }
            if ok {
                assert(text::texts(stats.skipped@) =~= left_out(head, more));
            } else {
                assert(text::texts(stats.skipped@) =~= text::texts(skipped).push(names));
            }
            if has_readout(head, *config, i as int) {
                let k = choose|k: int| 0 <= k < i && is_readout(#[trigger] head.tensors[k].0, *config);
                assert(is_readout(head.tensors[k].0, *config));
            }
            if has_readout(head, *config, i + 1) && !is_readout(names, *config) {
                let k = choose|k: int| 0 <= k < i + 1 && is_readout(#[trigger] head.tensors[k].0, *config);
                assert(is_readout(head.tensors[k].0, *config) && k != i);
            }
            if is_readout(names, *config) {
                assert(is_readout(head.tensors[i as int].0, *config));
            }
            trace = longer;
            done = more;
        }
        i = i + 1;
    }
    let ghost placed = model.parts();
    let tie: bool = config.tie_word_embeddings || !lm_head_loaded;
    if tie {
        model.tie_embeddings();
    }
    let ghost last = model.parts();
    assert(tied(placed, last, tie));
    let wanted: bool = match quantize {
        Some(q) => text::same(q, "ternary"),
        None => false,
    };
    if wanted {
        model.quantize_to_bit1(pack);
        assert(model.layers@ =~= Seq::empty());
    }
    assert(settled(last, *old(model), *model, wanted, *pack));
    assert(tied(trace.last(), last, ties(head, *config)));
    assert(brought_along(head, loader.data@, *config, trace, done));
    stats
}

/// The model in the end: all parts are in place, and the layers are packed where that is wanted.
/// The store of keys and values, and the configuration, stay as they were.
pub open spec fn settled<Q: Fn(&Tensor, QuantConfig) -> QuantizedTensor>(parts: Network, before: Model, after: Model, wanted: bool, pack: Q) -> bool {
    &&& after.config == before.config
    &&& after.cache == before.cache
    &&& if wanted {
        &&& after.parts() == (Network { layers: Seq::empty(), ..parts })
        &&& after.bit_layers matches Some(list) && bits::packed_layers(
            pack,
            QuantConfig { group_size: 0, outlier_frac: 0, a8: true },
            parts.layers,
            list@,
        )
    } else {
        &&& after.parts() == parts
        &&& after.bit_layers == before.bit_layers
    }
}

/// Whether the tensors of a file can be loaded, and placed in a model or refused.
pub fn can_load(loader: &SafeTensorsLoader, config: &ModelConfig, own: &ModelConfig) -> (r: bool)
    ensures
        r == bringable(loader.header@, loader.data@, *config, *own),
{
    let ghost head = loader.header@;
    let n: usize = loader.header.tensors.len();
    let mut i: usize = 0;
    while i < n
        invariant
            head == loader.header@,
            n == loader.header.tensors@.len(),
            i <= n,
            forall|j: int| 0 <= j < i ==> #[trigger] bringable_at(head, loader.data@, *config, *own, j),
        decreases n - i,
    {
        let name: &str = loader.header.tensors[i].0.as_str();
        assert(name@ == head.tensors[i as int].0);
        if !loader.header.test_loadable(loader.data.as_slice(), name) {
            assert(!bringable_at(head, loader.data@, *config, *own, i as int));
            return false;
        }
        let target: WeightTarget = weights::map_weight_for_architecture(name, config);
        match loader.load_tensor(name) {
            Ok(t) => {
                let ok: bool = assign::can_assign(&target, &t, own);
                proof {
                    assert(weights::answers(target, name@, weights::family_target(name@, config.architecture@)));
                    assert(safetensors::loads(head, loader.data@, name@, Ok(t)));
                    if ok {
                        assert forall|other: WeightTarget, u: Tensor|
                            #[trigger] weights::answers(other, name@, weights::family_target(name@, config.architecture@))
                                && #[trigger] safetensors::loads(head, loader.data@, name@, Ok(u)) implies assign::assignable(
                            other,
                            u@,
                            *own,
                        ) by {}
                        assert(bringable_at(head, loader.data@, *config, *own, i as int));
                    } else {
                        assert(!bringable_at(head, loader.data@, *config, *own, i as int));
                    }
                }
                if !ok {
                    return false;
                }
            },
            Err(_) => {
                assert(bringable_at(head, loader.data@, *config, *own, i as int));
            },
        }
        i = i + 1;
    }
    true
}

} // verus!
