//! Layers with weights of one bit per element.
//!
//! Which sign stands for a weight, and with which scale, is decided by a packing function that the
//! caller hands in. Here each map of a layer is packed once, its bias and the norms around it stay
//! as they are, and the layer runs as before.
use super::attention::Attention;
use super::config::ModelConfig;
use super::layers::{BitForm, Linear, RmsNorm};
use super::model::Model;
use super::transformer::TransformerLayer;
use crate::tensor::bits;
use crate::tensor::shape;
use crate::tensor::tensor;
use crate::tensor::tensor::Tensor;
use crate::tensor::types::DType;
use vstd::prelude::*;

verus! {

/// How weights are packed.
#[derive(Debug, Clone, Copy, PartialEq, Eq, Structural)]
pub struct QuantConfig {
    /// How many columns share a scale; all of them where it is zero.
    pub group_size: usize,
    /// The bits of the share of weights that are kept exact.
    pub outlier_frac: u64,
    /// Whether rows are rounded to eight bits before they meet the weights.
    pub a8: bool,
}

impl QuantConfig {
    /// One scale for a weight, nothing kept exact, rows rounded to eight bits.
    pub fn ternary() -> (r: QuantConfig)
        ensures
            r == (QuantConfig { group_size: 0, outlier_frac: 0, a8: true }),
    {
        QuantConfig { group_size: 0, outlier_frac: 0, a8: true }
    }

    /// A scale for each group of columns.
    pub fn ternary_grouped(group_size: usize) -> (r: QuantConfig)
        ensures
            r == (QuantConfig { group_size, outlier_frac: 0, a8: true }),
    {
        QuantConfig { group_size, outlier_frac: 0, a8: true }
    }

    /// Some of the weights kept exact.
    pub fn ternary_with_outliers(outlier_frac: u64) -> (r: QuantConfig)
        ensures
            r == (QuantConfig { group_size: 0, outlier_frac, a8: true }),
    {
        QuantConfig { group_size: 0, outlier_frac, a8: true }
    }

    /// The same, with rows rounded or not.
    pub fn with_a8(self, a8: bool) -> (r: QuantConfig)
        ensures
            r == (QuantConfig { a8, ..self }),
    {
        QuantConfig { group_size: self.group_size, outlier_frac: self.outlier_frac, a8 }
    }

    /// The same, with rows as they are.
    pub fn without_a8(self) -> (r: QuantConfig)
        ensures
            r == (QuantConfig { a8: false, ..self }),
    {
        self.with_a8(false)
    }
}

/// A packed weight.
pub struct QuantizedTensor {
    pub signs: Tensor,
    /// The bits of the scales, one for each group of columns, and of what is kept exact.
    pub scales: Vec<u32>,
}

/// A packing function takes every weight.
pub open spec fn packs<Q: Fn(&Tensor, QuantConfig) -> QuantizedTensor>(pack: Q) -> bool {
    forall|w: &Tensor, c: QuantConfig| #[trigger] call_requires(pack, (w, c))
}

/// A packing function gives signs in the shape of the weight.
pub open spec fn keeps_shape<Q: Fn(&Tensor, QuantConfig) -> QuantizedTensor>(pack: Q) -> bool {
    forall|w: &Tensor, c: QuantConfig, q: QuantizedTensor| #[trigger]
        call_ensures(pack, (w, c), q) ==> q.signs@.wf() && q.signs@.dtype is BIT1 && q.signs@.shape == w@.shape
}

/// The same bias, or none.
pub open spec fn same_bias(a: Option<Tensor>, b: Option<Tensor>) -> bool {
    match (a, b) {
        (Some(x), Some(y)) => x@ == y@,
        (None, None) => true,
        _ => false,
    }
}

/// The same norm, or none.
pub open spec fn same_norm(a: Option<RmsNorm>, b: Option<RmsNorm>) -> bool {
    match (a, b) {
        (Some(x), Some(y)) => x.same(y),
        (None, None) => true,
        _ => false,
    }
}

/// A map holds a packed weight.
pub open spec fn holds(l: Linear, q: QuantizedTensor, a8: bool) -> bool {
    &&& l.weight == q.signs
    &&& l.bits matches Some(form) && form.scales == q.scales && form.a8 == a8
}

/// A map holds the packed weight of another, and its bias.
pub open spec fn packed<Q: Fn(&Tensor, QuantConfig) -> QuantizedTensor>(pack: Q, config: QuantConfig, from: Linear, to: Linear) -> bool {
    &&& exists|q: QuantizedTensor| #[trigger] call_ensures(pack, (&from.weight, config), q) && holds(to, q, config.a8)
    &&& same_bias(to.bias, from.bias)
}

/// The norm that is taken away from rows: with ones for weights.
pub open spec fn takes_away(n: Option<RmsNorm>, config: ModelConfig) -> bool {
    if config.sub_ln {
        n matches Some(n) && {
            &&& n.weight@.wf()
            &&& n.weight@.dtype is F32
            &&& n.weight@.shape == seq![config.hidden_size]
            &&& forall|i: int| 0 <= i < n.weight@.count() ==> #[trigger] n.weight@.lane(i) == bits::ONE
            &&& n.bias is None
            &&& n.eps == config.norm_eps
            &&& n.kind is Rms
            &&& !n.one_centered
        }
    } else {
        n is None
    }
}

/// A layer has the packed maps of another, and the rest of it.
pub open spec fn packed_layer<Q: Fn(&Tensor, QuantConfig) -> QuantizedTensor>(
    pack: Q,
    config: QuantConfig,
    from: TransformerLayer,
    to: TransformerLayer,
) -> bool {
    &&& packed(pack, config, from.attention.q_proj, to.attention.q_proj)
    &&& packed(pack, config, from.attention.k_proj, to.attention.k_proj)
    &&& packed(pack, config, from.attention.v_proj, to.attention.v_proj)
    &&& packed(pack, config, from.attention.o_proj, to.attention.o_proj)
    &&& same_norm(to.attention.q_norm, from.attention.q_norm)
    &&& same_norm(to.attention.k_norm, from.attention.k_norm)
    &&& to.attention.config.same(from.attention.config)
    &&& to.attn_norm.same(from.attn_norm)
    &&& packed(pack, config, from.ffn_up, to.ffn_up)
    &&& packed(pack, config, from.ffn_gate, to.ffn_gate)
    &&& packed(pack, config, from.ffn_down, to.ffn_down)
    &&& to.ffn_norm.same(from.ffn_norm)
    &&& same_norm(to.post_ffn_norm, from.post_ffn_norm)
    &&& takes_away(to.sub_ln, from.config)
    &&& to.config.same(from.config)
}

/// Copies a bias.
fn copy_bias(b: &Option<Tensor>) -> (r: Option<Tensor>)
    ensures
        same_bias(r, *b),
{
    match b {
        Some(t) => Some(t.clone()),
        None => None,
    }
}

/// Copies a norm.
fn copy_norm(n: &Option<RmsNorm>) -> (r: Option<RmsNorm>)
    ensures
        same_norm(r, *n),
{
    match n {
        Some(n) => Some(n.clone()),
        None => None,
    }
}

impl Linear {
    /// A map without bias that holds a weight packed.
    pub fn quantize<Q: Fn(&Tensor, QuantConfig) -> QuantizedTensor>(weight: &Tensor, config: &QuantConfig, pack: &Q) -> (r: Linear)
        requires
            packs(*pack),
        ensures
            exists|q: QuantizedTensor| #[trigger] call_ensures(*pack, (weight, *config), q) && holds(r, q, config.a8),
            r.bias is None,
    {
        let q: QuantizedTensor = pack(weight, *config);
        let ghost made = q;
        let r: Linear = Linear { weight: q.signs, bias: None, bits: Some(BitForm { scales: q.scales, a8: config.a8 }) };
        assert(call_ensures(*pack, (weight, *config), made) && holds(r, made, config.a8));
        r
    }

    /// A map that holds a packed weight; rows are rounded to eight bits.
    pub fn from_quantized(weight_q: QuantizedTensor, bias: Option<Tensor>) -> (r: Linear)
        ensures
            holds(r, weight_q, true),
            r.bias == bias,
    {
        Linear { weight: weight_q.signs, bias, bits: Some(BitForm { scales: weight_q.scales, a8: true }) }
    }

    /// The map with its weight packed as [`QuantConfig::ternary`] says.
    pub fn from_linear<Q: Fn(&Tensor, QuantConfig) -> QuantizedTensor>(linear: &Linear, pack: &Q) -> (r: Linear)
        requires
            packs(*pack),
        ensures
            packed(*pack, QuantConfig { group_size: 0, outlier_frac: 0, a8: true }, *linear, r),
    {
        Linear::from_linear_with_config(linear, &QuantConfig::ternary(), pack)
    }

    /// The map with its weight packed.
    pub fn from_linear_with_config<Q: Fn(&Tensor, QuantConfig) -> QuantizedTensor>(linear: &Linear, config: &QuantConfig, pack: &Q) -> (r: Linear)
        requires
            packs(*pack),
        ensures
            packed(*pack, *config, *linear, r),
    {
        let mut r: Linear = Linear::quantize(&linear.weight, config, pack);
        let ghost q = choose|q: QuantizedTensor| #[trigger] call_ensures(*pack, (&linear.weight, *config), q) && holds(r, q, config.a8);
        r.bias = copy_bias(&linear.bias);
        assert(call_ensures(*pack, (&linear.weight, *config), q) && holds(r, q, config.a8));
        r
    }
}

impl TransformerLayer {
    /// The layer with its maps packed as [`QuantConfig::ternary`] says.
    pub fn from_fp32_layer<Q: Fn(&Tensor, QuantConfig) -> QuantizedTensor>(layer: &TransformerLayer, pack: &Q) -> (r: TransformerLayer)
        requires
            packs(*pack),
            layer.config.sub_ln ==> tensor::storable(seq![layer.config.hidden_size], DType::F32),
        ensures
            packed_layer(*pack, QuantConfig { group_size: 0, outlier_frac: 0, a8: true }, *layer, r),
    {
        TransformerLayer::from_fp32_layer_q(layer, &QuantConfig::ternary(), pack)
    }

    /// The layer with its maps packed.
    pub fn from_fp32_layer_q<Q: Fn(&Tensor, QuantConfig) -> QuantizedTensor>(
        layer: &TransformerLayer,
        config: &QuantConfig,
        pack: &Q,
    ) -> (r: TransformerLayer)
        requires
            packs(*pack),
            layer.config.sub_ln ==> tensor::storable(seq![layer.config.hidden_size], DType::F32),
        ensures
            packed_layer(*pack, *config, *layer, r),
    {
        let attention: Attention = Attention::new_with_qk_norm(
            Linear::from_linear_with_config(&layer.attention.q_proj, config, pack),
            Linear::from_linear_with_config(&layer.attention.k_proj, config, pack),
            Linear::from_linear_with_config(&layer.attention.v_proj, config, pack),
            Linear::from_linear_with_config(&layer.attention.o_proj, config, pack),
            copy_norm(&layer.attention.q_norm),
            copy_norm(&layer.attention.k_norm),
            layer.attention.config.clone(),
        );
        let sub_ln: Option<RmsNorm> = if layer.config.sub_ln {
            let dims: Vec<usize> = vec![layer.config.hidden_size];
            assert(dims@ =~= seq![layer.config.hidden_size]);
            Some(RmsNorm::new(Tensor::ones(dims.as_slice(), DType::F32), layer.config.norm_eps))
        } else {
            None
        };
        TransformerLayer {
            attention,
            attn_norm: layer.attn_norm.clone(),
            ffn_up: Linear::from_linear_with_config(&layer.ffn_up, config, pack),
            ffn_gate: Linear::from_linear_with_config(&layer.ffn_gate, config, pack),
            ffn_down: Linear::from_linear_with_config(&layer.ffn_down, config, pack),
            ffn_norm: layer.ffn_norm.clone(),
            post_ffn_norm: copy_norm(&layer.post_ffn_norm),
            sub_ln,
            config: layer.config.clone(),
        }
    }
}

/// The norms that are taken away from the rows of layers can be stored.
pub open spec fn storable_norms(layers: Seq<TransformerLayer>) -> bool {
    forall|i: int| 0 <= i < layers.len() && (#[trigger] layers[i]).config.sub_ln ==> tensor::storable(
        seq![layers[i].config.hidden_size],
        DType::F32,
    )
}

/// Layers are the packed forms of others, one by one.
pub open spec fn packed_layers<Q: Fn(&Tensor, QuantConfig) -> QuantizedTensor>(
    pack: Q,
    config: QuantConfig,
    from: Seq<TransformerLayer>,
    to: Seq<TransformerLayer>,
) -> bool {
    &&& to.len() == from.len()
    &&& forall|i: int| 0 <= i < to.len() ==> packed_layer(pack, config, from[i], #[trigger] to[i])
}

impl Model {
    /// The layers of floats are packed, and nothing else has changed.
    pub open spec fn was_packed<Q: Fn(&Tensor, QuantConfig) -> QuantizedTensor>(self, pack: Q, config: QuantConfig, after: Model) -> bool {
        &&& after.bit_layers matches Some(list) && packed_layers(pack, config, self.layers@, list@)
        &&& after.layers@.len() == 0
        &&& after.config == self.config
        &&& after.embedding == self.embedding
        &&& after.pos_embedding == self.pos_embedding
        &&& after.norm == self.norm
        &&& after.lm_head == self.lm_head
        &&& after.cache == self.cache
    }

    /// Packs the layers as [`QuantConfig::ternary`] says.
    pub fn quantize_to_bit1<Q: Fn(&Tensor, QuantConfig) -> QuantizedTensor>(&mut self, pack: &Q)
        requires
            packs(*pack),
            storable_norms(old(self).layers@),
        ensures
            old(self).was_packed(*pack, QuantConfig { group_size: 0, outlier_frac: 0, a8: true }, *final(self)),
    {
        self.quantize_to_bit1_with_config(&QuantConfig::ternary(), pack)
    }

    /// Packs the layers, one by one, and drops those of floats. Embeddings, norms and the readout
    /// stay.
    pub fn quantize_to_bit1_with_config<Q: Fn(&Tensor, QuantConfig) -> QuantizedTensor>(&mut self, config: &QuantConfig, pack: &Q)
        requires
            packs(*pack),
            storable_norms(old(self).layers@),
        ensures
            old(self).was_packed(*pack, *config, *final(self)),
    {
        let n: usize = self.layers.len();
        let mut list: Vec<TransformerLayer> = Vec::new();
        let mut i: usize = 0;
        while i < n
            invariant
                *self == *old(self),
                n == self.layers@.len(),
                i <= n,
                packs(*pack),
                storable_norms(self.layers@),
                packed_layers(*pack, *config, self.layers@.take(i as int), list@),
            decreases n - i,
        {
            let next: TransformerLayer = TransformerLayer::from_fp32_layer_q(&self.layers[i], config, pack);
            let ghost done = list@;
            list.push(next);
            assert forall|j: int| 0 <= j < list@.len() implies packed_layer(*pack, *config, self.layers@.take(i + 1)[j], #[trigger] list@[j]) by {
                if j < i {
                    assert(list@[j] == done[j]);
                    assert(packed_layer(*pack, *config, self.layers@.take(i as int)[j], done[j]));
                }
            }
            i = i + 1;
        }
        assert(self.layers@.take(n as int) =~= self.layers@);
        self.bit_layers = Some(list);
        self.layers = Vec::new();
    }

    /// Packs the layers, with a share of the weights kept exact.
    pub fn quantize_to_bit1_outliers<Q: Fn(&Tensor, QuantConfig) -> QuantizedTensor>(&mut self, outlier_frac: u64, pack: &Q)
        requires
            packs(*pack),
            storable_norms(old(self).layers@),
        ensures
            old(self).was_packed(*pack, QuantConfig { group_size: 0, outlier_frac, a8: true }, *final(self)),
    {
        self.quantize_to_bit1_with_config(&QuantConfig::ternary_with_outliers(outlier_frac), pack)
    }

    /// Packs the layers, with a share of the weights kept exact and rows rounded to eight bits.
    pub fn quantize_to_bit1_outliers_a8<Q: Fn(&Tensor, QuantConfig) -> QuantizedTensor>(&mut self, outlier_frac: u64, pack: &Q)
        requires
            packs(*pack),
            storable_norms(old(self).layers@),
        ensures
            old(self).was_packed(*pack, QuantConfig { group_size: 0, outlier_frac, a8: true }, *final(self)),
    {
        self.quantize_to_bit1_with_config(&QuantConfig::ternary_with_outliers(outlier_frac).with_a8(true), pack)
    }

    /// Packs the layers, with a scale for each group of columns.
    pub fn quantize_to_bit1_grouped<Q: Fn(&Tensor, QuantConfig) -> QuantizedTensor>(&mut self, group_size: usize, pack: &Q)
        requires
            packs(*pack),
            storable_norms(old(self).layers@),
        ensures
            old(self).was_packed(*pack, QuantConfig { group_size, outlier_frac: 0, a8: true }, *final(self)),
    {
        self.quantize_to_bit1_with_config(&QuantConfig::ternary_grouped(group_size), pack)
    }

    /// Packs the layers, with a scale for each group of columns and rows rounded to eight bits.
    pub fn quantize_to_bit1_grouped_a8<Q: Fn(&Tensor, QuantConfig) -> QuantizedTensor>(&mut self, group_size: usize, pack: &Q)
        requires
            packs(*pack),
            storable_norms(old(self).layers@),
        ensures
            old(self).was_packed(*pack, QuantConfig { group_size, outlier_frac: 0, a8: true }, *final(self)),
    {
        self.quantize_to_bit1_with_config(&QuantConfig::ternary_grouped(group_size).with_a8(true), pack)
    }

    /// Packs the layers, with rows rounded to eight bits, as [`Model::quantize_to_bit1`] does.
    pub fn quantize_to_bit1_a8<Q: Fn(&Tensor, QuantConfig) -> QuantizedTensor>(&mut self, pack: &Q)
        requires
            packs(*pack),
            storable_norms(old(self).layers@),
        ensures
            old(self).was_packed(*pack, QuantConfig { group_size: 0, outlier_frac: 0, a8: true }, *final(self)),
    {
        self.quantize_to_bit1_with_config(&QuantConfig::ternary().with_a8(true), pack)
    }
}

/// A packed map takes and gives rows of the same widths.
proof fn packed_maps<Q: Fn(&Tensor, QuantConfig) -> QuantizedTensor>(pack: Q, config: QuantConfig, from: Linear, to: Linear, k: int, n: int)
    requires
        keeps_shape(pack),
        packed(pack, config, from, to),
        from.maps(k, n),
    ensures
        to.maps(k, n),
        to.weight@.shape == from.weight@.shape,
{
    let q = choose|q: QuantizedTensor| #[trigger] call_ensures(pack, (&from.weight, config), q) && holds(to, q, config.a8);
    assert(call_ensures(pack, (&from.weight, config), q) && holds(to, q, config.a8));
}

/// A layer still fits when its maps are packed.
proof fn packed_fits<Q: Fn(&Tensor, QuantConfig) -> QuantizedTensor>(
    pack: Q,
    config: QuantConfig,
    from: TransformerLayer,
    to: TransformerLayer,
    hidden: int,
)
    requires
        keeps_shape(pack),
        packed_layer(pack, config, from, to),
        from.fits(hidden),
        from.config.hidden_size == hidden,
    ensures
        to.fits(hidden),
        to.attention.kv() == from.attention.kv(),
        to.attention.width() == from.attention.width(),
        forall|count: usize| from.room(count) ==> #[trigger] to.room(count),
{
    let a = from.attention;
    let b = to.attention;
    let wide = a.heads() * a.width();
    packed_maps(pack, config, a.q_proj, b.q_proj, hidden, wide);
    packed_maps(pack, config, a.k_proj, b.k_proj, hidden, a.kv() * a.width());
    packed_maps(pack, config, a.v_proj, b.v_proj, hidden, a.kv() * a.width());
    packed_maps(pack, config, a.o_proj, b.o_proj, wide, hidden);
    packed_maps(pack, config, from.ffn_up, to.ffn_up, hidden, from.inner());
    if from.config.activation !is Gelu {
        packed_maps(pack, config, from.ffn_gate, to.ffn_gate, hidden, from.inner());
    }
    packed_maps(pack, config, from.ffn_down, to.ffn_down, from.inner(), hidden);
    if from.config.sub_ln {
        shape::product_one(from.config.hidden_size);
    }
}

/// Every map of a layer holds signs.
pub open spec fn all_signs(l: TransformerLayer) -> bool {
    &&& l.attention.q_proj.weight@.dtype is BIT1
    &&& l.attention.k_proj.weight@.dtype is BIT1
    &&& l.attention.v_proj.weight@.dtype is BIT1
    &&& l.attention.o_proj.weight@.dtype is BIT1
    &&& l.ffn_up.weight@.dtype is BIT1
    &&& l.ffn_gate.weight@.dtype is BIT1
    &&& l.ffn_down.weight@.dtype is BIT1
}

/// A packed map holds signs.
proof fn packed_signs<Q: Fn(&Tensor, QuantConfig) -> QuantizedTensor>(pack: Q, config: QuantConfig, from: Linear, to: Linear)
    requires
        keeps_shape(pack),
        packed(pack, config, from, to),
    ensures
        to.weight@.dtype is BIT1,
{
    let q = choose|q: QuantizedTensor| #[trigger] call_ensures(pack, (&from.weight, config), q) && holds(to, q, config.a8);
    assert(call_ensures(pack, (&from.weight, config), q) && holds(to, q, config.a8));
}

impl Model {
    /// In a packed model the projections of attention and of the feed-forward block hold signs,
    /// while the embedding, the norms and the readout are the ones of floats that were there.
    pub proof fn only_projections_are_packed<Q: Fn(&Tensor, QuantConfig) -> QuantizedTensor>(self, pack: Q, config: QuantConfig, after: Model)
        requires
            keeps_shape(pack),
            self.was_packed(pack, config, after),
        ensures
            after.live().len() == self.layers@.len(),
            forall|l: int| 0 <= l < after.live().len() ==> {
                &&& all_signs(#[trigger] after.live()[l])
                &&& after.live()[l].attn_norm.same(self.layers@[l].attn_norm)
                &&& after.live()[l].ffn_norm.same(self.layers@[l].ffn_norm)
            },
            after.embedding == self.embedding,
            after.norm == self.norm,
            after.lm_head == self.lm_head,
    {
        assert forall|l: int| 0 <= l < after.live().len() implies all_signs(#[trigger] after.live()[l]) && after.live()[l].attn_norm.same(
            self.layers@[l].attn_norm,
        ) && after.live()[l].ffn_norm.same(self.layers@[l].ffn_norm) by {
            let from = self.layers@[l];
            let to = after.live()[l];
            assert(packed_layer(pack, config, from, to));
            packed_signs(pack, config, from.attention.q_proj, to.attention.q_proj);
            packed_signs(pack, config, from.attention.k_proj, to.attention.k_proj);
            packed_signs(pack, config, from.attention.v_proj, to.attention.v_proj);
            packed_signs(pack, config, from.attention.o_proj, to.attention.o_proj);
            packed_signs(pack, config, from.ffn_up, to.ffn_up);
            packed_signs(pack, config, from.ffn_gate, to.ffn_gate);
            packed_signs(pack, config, from.ffn_down, to.ffn_down);
        }
    }

    /// A model that runs still runs when its layers are packed, as long as the packing keeps the
    /// shapes of the weights.
    pub proof fn packed_still_runs<Q: Fn(&Tensor, QuantConfig) -> QuantizedTensor>(self, pack: Q, config: QuantConfig, after: Model)
        requires
            keeps_shape(pack),
            self.was_packed(pack, config, after),
            self.parts().fits(),
            forall|i: int| 0 <= i < self.layers@.len() ==> (#[trigger] self.layers@[i]).config.hidden_size == self.config.hidden_size,
        ensures
            after.network().fits(),
            forall|count: usize| self.parts().room(count) ==> #[trigger] after.network().room(count),
    {
        let list = after.bit_layers.unwrap()@;
        let hidden = self.parts().hidden();
        assert forall|l: int| 0 <= l < list.len() implies after.network().layer_fits(#[trigger] list[l]) && forall|count: usize|
            self.layers@[l].room(count) ==> #[trigger] list[l].room(count) by {
            assert(self.parts().layer_fits(self.parts().layers[l]));
            packed_fits(pack, config, self.layers@[l], list[l], hidden);
        }
        assert forall|count: usize| self.parts().room(count) implies #[trigger] after.network().room(count) by {
            assert forall|l: int| 0 <= l < list.len() implies (#[trigger] list[l]).room(count) by {
                assert(self.parts().layers[l].room(count));
            }
        }
    }
}

} // verus!
