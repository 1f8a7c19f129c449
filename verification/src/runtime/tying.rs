//! Models after loading.
use super::bits::{QuantConfig, QuantizedTensor};
use super::config::ModelConfig;
use super::gguf::GgufModel;
use super::gguf_loader;
use super::loading;
use super::loading::LoadingStats;
use super::model::Model;
use super::network::Network;
use super::safetensors::HeaderModel;
use super::weights;
use super::weights::WeightTarget;
use crate::tensor::tensor::Tensor;
use crate::tensor::types::Device;
use vstd::prelude::*;

verus! {

/// Where the configuration asks for it, or no tensor of the file is a readout, the readout of the
/// model holds what the table of embeddings holds; nothing else is changed by that.
pub proof fn readout_is_tied_where_it_is_missing<Q: Fn(&Tensor, QuantConfig) -> QuantizedTensor>(
    h: HeaderModel,
    data: Seq<u8>,
    config: ModelConfig,
    pack: Q,
    before: Model,
    after: Model,
    stats: LoadingStats,
)
    requires
        loading::loaded_from(h, data, config, false, pack, before, after, stats),
        config.tie_word_embeddings || forall|i: int|
            0 <= i < h.tensors.len() ==> weights::family_target(#[trigger] h.tensors[i].0, config.architecture@) != Some(WeightTarget::LmHead),
    ensures
        after.parts().lm_head.weight@ == after.parts().embedding.weight@,
        after.config == before.config,
        after.cache == before.cache,
{
}

/// The same of a GGUF file.
pub proof fn gguf_readout_is_tied_where_it_is_missing<M: Fn(u32, u32) -> u32>(
    h: GgufModel,
    data: Seq<u8>,
    data_offset: int,
    times: M,
    device: Device,
    config: ModelConfig,
    before: Model,
    after: Model,
)
    requires
        gguf_loader::filled_from(h, data, data_offset, times, device, config, before, after),
        config.tie_word_embeddings || forall|i: int|
            0 <= i < h.tensors.len() ==> gguf_loader::gguf_target(#[trigger] h.tensors[i].name) != Some(WeightTarget::LmHead),
    ensures
        after.parts().lm_head.weight@ == after.parts().embedding.weight@,
        after.config == before.config,
        after.cache == before.cache,
{
}

/// A readout that the file has, and that is not to be tied, is left as it was placed.
pub proof fn own_readout_is_kept(h: HeaderModel, config: ModelConfig, before: Network, after: Network, i: int)
    requires
        0 <= i < h.tensors.len(),
        weights::family_target(h.tensors[i].0, config.architecture@) == Some(WeightTarget::LmHead),
        !config.tie_word_embeddings,
        loading::tied(before, after, loading::ties(h, config)),
    ensures
        after == before,
{
    assert(loading::is_readout(h.tensors[i].0, config));
}

/// Files list dimensions from the innermost to the outermost: a tensor of a GGUF file keeps its
/// elements, and has its dimensions the other way round.
pub proof fn dimensions_are_turned_round(t: Tensor, u: Tensor, device: Device, i: int)
    requires
        gguf_loader::turned(t, u, device),
    ensures
        u@.shape.len() == t@.shape.len(),
        0 <= i < t@.shape.len() ==> u@.shape[i] == t@.shape[t@.shape.len() - 1 - i],
        u@.lane(i) == t@.lane(i),
        u@.device == device,
        u@.dtype == t@.dtype,
{
}

/// Tensors that are placed are counted, and those that are not are named, each in its turn.
pub proof fn tensors_are_counted_in_turn(h: HeaderModel, done: Seq<bool>, ok: bool)
    ensures
        loading::successes(done.push(ok)) == loading::successes(done) + (if ok {
            1int
        } else {
            0
        }),
        loading::left_out(h, done.push(ok)) == (if ok {
            loading::left_out(h, done)
        } else {
            loading::left_out(h, done).push(h.tensors[done.len() as int].0)
        }),
        loading::successes(Seq::empty()) == 0,
        loading::left_out(h, Seq::empty()).len() == 0,
{
    assert(done.push(ok).drop_last() =~= done);
}

} // verus!
