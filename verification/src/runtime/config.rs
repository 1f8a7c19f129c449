//! Model configuration.
use crate::json;
use crate::json::{Json, JsonModel};
use crate::text;
use vstd::prelude::*;

verus! {

/// A float constant by its bits, as it was read: single or double precision.
#[derive(Debug, Clone, Copy, PartialEq, Eq, Structural)]
pub enum Real {
    Single(u32),
    Double(u64),
}

/// The single-precision float 1e-5.
pub const TEN_TO_MINUS_FIVE: u32 = 0x3727_c5ac;

/// The single-precision float 10000.
pub const TEN_THOUSAND: u32 = 0x461c_4000;

/// The single-precision float 1.
pub const UNIT: u32 = 0x3f80_0000;

/// A family of models.
#[derive(Debug, PartialEq, Eq)]
pub enum Architecture {
    Llama,
    Mistral,
    Gpt2,
    Phi,
    Gemma,
    Qwen2,
    Qwen3,
    Custom(String),
}

/// A family of models, with the name of a custom one as a sequence.
pub enum ArchitectureModel {
    Llama,
    Mistral,
    Gpt2,
    Phi,
    Gemma,
    Qwen2,
    Qwen3,
    Custom(Seq<char>),
}

/// How the feed-forward block is built.
#[derive(Debug, Clone, Copy, PartialEq, Eq, Structural)]
pub enum Activation {
    /// `down(silu(gate) * up)`
    SiluGated,
    /// `down(gelu(gate) * up)`
    GeluGated,
    /// `down(gelu(up))`
    Gelu,
}

/// Which normalization a model uses.
#[derive(Debug, Clone, Copy, PartialEq, Eq, Structural)]
pub enum NormType {
    RmsNorm,
    LayerNorm,
}

impl Default for Architecture {
    fn default() -> (r: Self)
        ensures
            r == Architecture::Llama,
    {
        Architecture::Llama
    }
}

impl Default for Activation {
    fn default() -> (r: Self)
        ensures
            r == Activation::SiluGated,
    {
        Activation::SiluGated
    }
}

impl Default for NormType {
    fn default() -> (r: Self)
        ensures
            r == NormType::RmsNorm,
    {
        NormType::RmsNorm
    }
}

impl Clone for Architecture {
    fn clone(&self) -> (r: Self)
        ensures
            r@ == self@,
    {
        match self {
            Architecture::Llama => Architecture::Llama,
            Architecture::Mistral => Architecture::Mistral,
            Architecture::Gpt2 => Architecture::Gpt2,
            Architecture::Phi => Architecture::Phi,
            Architecture::Gemma => Architecture::Gemma,
            Architecture::Qwen2 => Architecture::Qwen2,
            Architecture::Qwen3 => Architecture::Qwen3,
            Architecture::Custom(s) => Architecture::Custom(s.clone()),
        }
    }
}

impl View for Architecture {
    type V = ArchitectureModel;

    open spec fn view(&self) -> ArchitectureModel {
        match *self {
            Architecture::Llama => ArchitectureModel::Llama,
            Architecture::Mistral => ArchitectureModel::Mistral,
            Architecture::Gpt2 => ArchitectureModel::Gpt2,
            Architecture::Phi => ArchitectureModel::Phi,
            Architecture::Gemma => ArchitectureModel::Gemma,
            Architecture::Qwen2 => ArchitectureModel::Qwen2,
            Architecture::Qwen3 => ArchitectureModel::Qwen3,
            Architecture::Custom(s) => ArchitectureModel::Custom(s@),
        }
    }
}

impl ArchitectureModel {
    /// GPT-2 and Phi learn positions and use layer norms; all others rotate and use RMS norms.
    pub open spec fn classic(self) -> bool {
        self is Gpt2 || self is Phi
    }

    /// The feed-forward block that the family uses unless told otherwise.
    pub open spec fn activation(self) -> Activation {
        match self {
            ArchitectureModel::Gpt2 | ArchitectureModel::Phi => Activation::Gelu,
            ArchitectureModel::Gemma => Activation::GeluGated,
            _ => Activation::SiluGated,
        }
    }

    /// The family's name.
    pub open spec fn label(self) -> Seq<char> {
        match self {
            ArchitectureModel::Llama => "Llama"@,
            ArchitectureModel::Mistral => "Mistral"@,
            ArchitectureModel::Gpt2 => "Gpt2"@,
            ArchitectureModel::Phi => "Phi"@,
            ArchitectureModel::Gemma => "Gemma"@,
            ArchitectureModel::Qwen2 => "Qwen2"@,
            ArchitectureModel::Qwen3 => "Qwen3"@,
            ArchitectureModel::Custom(s) => s,
        }
    }
}

/// The family that a class name of a Hugging Face checkpoint belongs to.
pub open spec fn class_family(s: Seq<char>) -> ArchitectureModel {
    if s == "LlamaForCausalLM"@ || s == "LlamaModel"@ {
        ArchitectureModel::Llama
    } else if s == "MistralForCausalLM"@ || s == "MistralModel"@ {
        ArchitectureModel::Mistral
    } else if s == "GPT2LMHeadModel"@ || s == "GPT2Model"@ {
        ArchitectureModel::Gpt2
    } else if s == "PhiForCausalLM"@ || s == "PhiModel"@ {
        ArchitectureModel::Phi
    } else if s == "GemmaForCausalLM"@ || s == "GemmaModel"@ || s == "Gemma2ForCausalLM"@ || s == "Gemma2Model"@ {
        ArchitectureModel::Gemma
    } else if s == "Qwen2ForCausalLM"@ || s == "Qwen2Model"@ {
        ArchitectureModel::Qwen2
    } else if s == "Qwen3ForCausalLM"@ || s == "Qwen3Model"@ {
        ArchitectureModel::Qwen3
    } else {
        ArchitectureModel::Custom(s)
    }
}

/// The family that a short type name belongs to; `phi2` counts as Phi in GGUF files only.
pub open spec fn type_family(s: Seq<char>, gguf: bool) -> ArchitectureModel {
    if s == "llama"@ {
        ArchitectureModel::Llama
    } else if s == "mistral"@ {
        ArchitectureModel::Mistral
    } else if s == "gpt2"@ {
        ArchitectureModel::Gpt2
    } else if s == "phi"@ || (gguf && s == "phi2"@) {
        ArchitectureModel::Phi
    } else if s == "gemma"@ || s == "gemma2"@ {
        ArchitectureModel::Gemma
    } else if s == "qwen2"@ {
        ArchitectureModel::Qwen2
    } else if s == "qwen3"@ {
        ArchitectureModel::Qwen3
    } else {
        ArchitectureModel::Custom(s)
    }
}

/// The first text in a list.
pub open spec fn first_text(list: Seq<JsonModel>) -> Option<Seq<char>>
    decreases list.len(),
{
    if list.len() == 0 {
        None
    } else if list[0].text() is Some {
        list[0].text()
    } else {
        first_text(list.drop_first())
    }
}

/// The first text in the list under `architectures`.
pub open spec fn class_name(v: JsonModel) -> Option<Seq<char>> {
    match v.field("architectures"@) {
        Some(list) => match list.list() {
            Some(items) => first_text(items),
            None => None,
        },
        None => None,
    }
}

/// The family that a Hugging Face configuration names: by class, or else by type.
pub open spec fn named_family(v: JsonModel) -> Option<ArchitectureModel> {
    match class_name(v) {
        Some(s) => Some(class_family(s)),
        None => match v.text_at("model_type"@) {
            Some(s) => Some(type_family(s, false)),
            None => None,
        },
    }
}

/// Whether a Hugging Face configuration names the second generation of Gemma.
pub open spec fn second_gemma(v: JsonModel) -> bool {
    match class_name(v) {
        Some(s) => s == "Gemma2ForCausalLM"@ || s == "Gemma2Model"@,
        None => v.text_at("model_type"@) == Some("gemma2"@),
    }
}

fn family_of_class(s: &str) -> (r: Architecture)
    ensures
        r@ == class_family(s@),
{
    if text::same(s, "LlamaForCausalLM") || text::same(s, "LlamaModel") {
        Architecture::Llama
    } else if text::same(s, "MistralForCausalLM") || text::same(s, "MistralModel") {
        Architecture::Mistral
    } else if text::same(s, "GPT2LMHeadModel") || text::same(s, "GPT2Model") {
        Architecture::Gpt2
    } else if text::same(s, "PhiForCausalLM") || text::same(s, "PhiModel") {
        Architecture::Phi
    } else if text::same(s, "GemmaForCausalLM") || text::same(s, "GemmaModel") || text::same(s, "Gemma2ForCausalLM")
        || text::same(s, "Gemma2Model") {
        Architecture::Gemma
    } else if text::same(s, "Qwen2ForCausalLM") || text::same(s, "Qwen2Model") {
        Architecture::Qwen2
    } else if text::same(s, "Qwen3ForCausalLM") || text::same(s, "Qwen3Model") {
        Architecture::Qwen3
    } else {
        Architecture::Custom(s.to_owned())
    }
}

fn family_of_type(s: &str, gguf: bool) -> (r: Architecture)
    ensures
        r@ == type_family(s@, gguf),
{
    if text::same(s, "llama") {
        Architecture::Llama
    } else if text::same(s, "mistral") {
        Architecture::Mistral
    } else if text::same(s, "gpt2") {
        Architecture::Gpt2
    } else if text::same(s, "phi") || (gguf && text::same(s, "phi2")) {
        Architecture::Phi
    } else if text::same(s, "gemma") || text::same(s, "gemma2") {
        Architecture::Gemma
    } else if text::same(s, "qwen2") {
        Architecture::Qwen2
    } else if text::same(s, "qwen3") {
        Architecture::Qwen3
    } else {
        Architecture::Custom(s.to_owned())
    }
}

/// The first text in the list under `architectures`, if there is one.
fn read_class_name(config: &Json) -> (r: Option<&str>)
    ensures
        match r {
            Some(s) => class_name(config@) == Some(s@),
            None => class_name(config@) is None,
        },
{
    if let Some(list) = config.get("architectures") {
        if let Some(items) = list.as_array() {
            let ghost all = list@.list().unwrap();
            let mut i: usize = 0;
            assert(all.skip(0) =~= all);
            while i < items.len()
                invariant
                    list@.list() == Some(all),
                    config@.field("architectures"@) == Some(list@),
                    all.len() == items@.len(),
                    forall|k: int| 0 <= k < items@.len() ==> #[trigger] items@[k]@ == all[k],
                    i <= items@.len(),
                    first_text(all) == first_text(all.skip(i as int)),
                decreases items.len() - i,
            {
                assert(items@[i as int]@ == all[i as int]);
                if let Some(s) = items[i].as_str() {
                    return Some(s);
                }
                assert(all.skip(i as int).drop_first() =~= all.skip(i + 1));
                i = i + 1;
            }
            assert(first_text(all) is None);
        }
    }
    None
}

impl Architecture {
    /// The family that a Hugging Face configuration names.
    pub fn from_huggingface(config: &Json) -> (r: Option<Architecture>)
        ensures
            match r {
                Some(a) => named_family(config@) == Some(a@),
                None => named_family(config@) is None,
            },
    {
        if let Some(s) = read_class_name(config) {
            return Some(family_of_class(s));
        }
        match config.str_at("model_type") {
            Some(s) => Some(family_of_type(s, false)),
            None => None,
        }
    }

    /// The family that the `general.architecture` entry of a GGUF file names.
    pub fn from_gguf(s: &str) -> (r: Architecture)
        ensures
            r@ == type_family(s@, true),
    {
        family_of_type(s, true)
    }

    /// Whether positions are rotated into queries and keys rather than learned.
    pub fn uses_rope(&self) -> (r: bool)
        ensures
            r == !self@.classic(),
    {
        !matches!(self, Architecture::Gpt2 | Architecture::Phi)
    }

    /// Whether norms are RMS norms rather than layer norms.
    pub fn uses_rms_norm(&self) -> (r: bool)
        ensures
            r == !self@.classic(),
    {
        !matches!(self, Architecture::Gpt2 | Architecture::Phi)
    }

    /// The feed-forward block that the family uses unless told otherwise.
    pub fn default_activation(&self) -> (r: Activation)
        ensures
            r == self@.activation(),
    {
        match self {
            Architecture::Gpt2 | Architecture::Phi => Activation::Gelu,
            Architecture::Gemma => Activation::GeluGated,
            _ => Activation::SiluGated,
        }
    }

    /// The family's name.
    pub fn name(&self) -> (r: String)
        ensures
            r@ == self@.label(),
    {
        match self {
            Architecture::Llama => "Llama".to_owned(),
            Architecture::Mistral => "Mistral".to_owned(),
            Architecture::Gpt2 => "Gpt2".to_owned(),
            Architecture::Phi => "Phi".to_owned(),
            Architecture::Gemma => "Gemma".to_owned(),
            Architecture::Qwen2 => "Qwen2".to_owned(),
            Architecture::Qwen3 => "Qwen3".to_owned(),
            Architecture::Custom(s) => s.clone(),
        }
    }
}

impl Activation {
    /// Whether the feed-forward block has a gate.
    pub fn is_gated(&self) -> (r: bool)
        ensures
            r == !(*self is Gelu),
    {
        !matches!(self, Activation::Gelu)
    }
}

/// The feed-forward block that an activation name stands for in a family.
pub open spec fn named_activation(s: Seq<char>, arch: ArchitectureModel) -> Activation {
    if s == "silu"@ || s == "swish"@ {
        Activation::SiluGated
    } else if s == "gelu"@ {
        if arch is Gemma {
            Activation::GeluGated
        } else if arch.classic() {
            Activation::Gelu
        } else {
            Activation::SiluGated
        }
    } else if s == "gelu_new"@ || s == "gelu_pytorch_tanh"@ || s == "gelu_tanh"@ {
        if arch.classic() {
            Activation::Gelu
        } else {
            Activation::GeluGated
        }
    } else {
        arch.activation()
    }
}

/// The feed-forward block that an activation name stands for in a family.
pub fn parse_activation(s: &str, arch: &Architecture) -> (r: Activation)
    ensures
        r == named_activation(s@, arch@),
{
    if text::same(s, "silu") || text::same(s, "swish") {
        Activation::SiluGated
    } else if text::same(s, "gelu") {
        match arch {
            Architecture::Gemma => Activation::GeluGated,
            Architecture::Gpt2 | Architecture::Phi => Activation::Gelu,
            _ => Activation::SiluGated,
        }
    } else if text::same(s, "gelu_new") || text::same(s, "gelu_pytorch_tanh") || text::same(s, "gelu_tanh") {
        if matches!(arch, Architecture::Gpt2 | Architecture::Phi) {
            Activation::Gelu
        } else {
            Activation::GeluGated
        }
    } else {
        arch.default_activation()
    }
}

/// How rotary positions are stretched for longer contexts.
#[derive(Debug)]
pub struct RopeScaling {
    /// "linear", "dynamic" or "llama3".
    pub kind: String,
    pub factor: Real,
}

/// The dimensions and conventions of a model.
#[derive(Debug)]
pub struct ModelConfig {
    pub vocab_size: usize,
    pub hidden_size: usize,
    pub num_layers: usize,
    pub num_heads: usize,
    pub num_kv_heads: Option<usize>,
    pub intermediate_size: usize,
    pub norm_eps: Real,
    pub max_seq_len: usize,
    pub rope_theta: Real,
    pub tie_word_embeddings: bool,
    /// Quantized blocks take `x - norm(x)` as input and add the residual back as floats.
    pub sub_ln: bool,
    pub rope_scaling: Option<RopeScaling>,
    pub architecture: Architecture,
    pub activation: Activation,
    pub norm_type: NormType,
    /// Whether attention rotates positions in.
    pub use_rope: bool,
    /// The length of the table of learned positions, if there is one.
    pub position_embeddings: Option<usize>,
    /// Whether queries and keys are normalized head by head.
    pub qk_norm: bool,
    /// How far back attention looks, if it is limited.
    pub sliding_window: Option<usize>,
    /// The dimension of a head, where it is not the hidden size over the number of heads.
    pub head_dim: Option<usize>,
    /// Whether the gain of a norm is one plus its weight.
    pub one_centered_norm: bool,
    /// Whether the output of the feed-forward block is normalized.
    pub post_ffn_norm: bool,
    /// The soft limit of attention scores, if there is one.
    pub attn_logit_softcap: Option<Real>,
    /// The soft limit of the final scores, if there is one.
    pub final_logit_softcap: Option<Real>,
}

/// A scaling with the same kind and factor.
pub open spec fn same_scaling(a: Option<RopeScaling>, b: Option<RopeScaling>) -> bool {
    match (a, b) {
        (Some(x), Some(y)) => x.kind@ == y.kind@ && x.factor == y.factor,
        (None, None) => true,
        _ => false,
    }
}

impl Clone for ModelConfig {
    fn clone(&self) -> (r: Self)
        ensures
            r.same(*self),
    {
        ModelConfig {
            vocab_size: self.vocab_size,
            hidden_size: self.hidden_size,
            num_layers: self.num_layers,
            num_heads: self.num_heads,
            num_kv_heads: self.num_kv_heads,
            intermediate_size: self.intermediate_size,
            norm_eps: self.norm_eps,
            max_seq_len: self.max_seq_len,
            rope_theta: self.rope_theta,
            tie_word_embeddings: self.tie_word_embeddings,
            sub_ln: self.sub_ln,
            rope_scaling: match &self.rope_scaling {
                Some(s) => Some(RopeScaling { kind: s.kind.clone(), factor: s.factor }),
                None => None,
            },
            architecture: self.architecture.clone(),
            activation: self.activation,
            norm_type: self.norm_type,
            use_rope: self.use_rope,
            position_embeddings: self.position_embeddings,
            qk_norm: self.qk_norm,
            sliding_window: self.sliding_window,
            head_dim: self.head_dim,
            one_centered_norm: self.one_centered_norm,
            post_ffn_norm: self.post_ffn_norm,
            attn_logit_softcap: self.attn_logit_softcap,
            final_logit_softcap: self.final_logit_softcap,
        }
    }
}

impl ModelConfig {
    /// The factor by which rotary positions are stretched: one unless configured.
    pub open spec fn stretch(self) -> Real {
        match self.rope_scaling {
            Some(s) => s.factor,
            None => Real::Single(UNIT),
        }
    }

    /// The factor by which rotary positions are stretched: one unless configured.
    pub fn rope_factor(&self) -> (r: Real)
        ensures
            r == self.stretch(),
    {
        match &self.rope_scaling {
            Some(s) => s.factor,
            None => Real::Single(UNIT),
        }
    }

    /// The same configuration, field by field.
    pub open spec fn same(self, other: ModelConfig) -> bool {
        &&& self.vocab_size == other.vocab_size
        &&& self.hidden_size == other.hidden_size
        &&& self.num_layers == other.num_layers
        &&& self.num_heads == other.num_heads
        &&& self.num_kv_heads == other.num_kv_heads
        &&& self.intermediate_size == other.intermediate_size
        &&& self.norm_eps == other.norm_eps
        &&& self.max_seq_len == other.max_seq_len
        &&& self.rope_theta == other.rope_theta
        &&& self.tie_word_embeddings == other.tie_word_embeddings
        &&& self.sub_ln == other.sub_ln
        &&& same_scaling(self.rope_scaling, other.rope_scaling)
        &&& self.architecture@ == other.architecture@
        &&& self.activation == other.activation
        &&& self.norm_type == other.norm_type
        &&& self.use_rope == other.use_rope
        &&& self.position_embeddings == other.position_embeddings
        &&& self.qk_norm == other.qk_norm
        &&& self.sliding_window == other.sliding_window
        &&& self.head_dim == other.head_dim
        &&& self.one_centered_norm == other.one_centered_norm
        &&& self.post_ffn_norm == other.post_ffn_norm
        &&& self.attn_logit_softcap == other.attn_logit_softcap
        &&& self.final_logit_softcap == other.final_logit_softcap
    }

    /// The dimension of an attention head.
    pub open spec fn head_width(self) -> usize {
        match self.head_dim {
            Some(d) => d,
            None => (self.hidden_size / self.num_heads) as usize,
        }
    }

    /// The number of key and value heads.
    pub open spec fn kv_heads(self) -> usize {
        match self.num_kv_heads {
            Some(n) => n,
            None => self.num_heads,
        }
    }

    /// The dimension of an attention head.
    pub fn head_dim(&self) -> (r: usize)
        requires
            self.num_heads > 0,
        ensures
            r == self.head_width(),
    {
        match self.head_dim {
            Some(d) => d,
            None => self.hidden_size / self.num_heads,
        }
    }

    /// The number of key and value heads.
    pub fn num_kv_heads(&self) -> (r: usize)
        ensures
            r == self.kv_heads(),
    {
        match self.num_kv_heads {
            Some(n) => n,
            None => self.num_heads,
        }
    }

    /// The dimension of a key or value head.
    pub fn kv_head_dim(&self) -> (r: usize)
        requires
            self.num_heads > 0,
        ensures
            r == self.head_width(),
    {
        self.head_dim()
    }

    /// How many query heads share a key and value head.
    pub fn num_kv_groups(&self) -> (r: usize)
        requires
            self.kv_heads() > 0,
        ensures
            r == self.num_heads / self.kv_heads(),
    {
        self.num_heads / self.num_kv_heads()
    }

    /// The width of the feed-forward block.
    pub fn ff_dim(&self) -> (r: usize)
        ensures
            r == self.intermediate_size,
    {
        self.intermediate_size
    }

    /// Whether the feed-forward block has a gate.
    pub fn uses_gated_ffn(&self) -> (r: bool)
        ensures
            r == !(self.activation is Gelu),
    {
        self.activation.is_gated()
    }

    /// Whether attention rotates positions in.
    pub fn uses_rope(&self) -> (r: bool)
        ensures
            r == self.use_rope,
    {
        self.use_rope
    }

    /// Whether norms are layer norms.
    pub fn uses_layer_norm(&self) -> (r: bool)
        ensures
            r == (self.norm_type is LayerNorm),
    {
        matches!(self.norm_type, NormType::LayerNorm)
    }

    /// The feed-forward block of this model.
    pub fn default_activation(&self) -> (r: Activation)
        ensures
            r == self.activation,
    {
        self.activation
    }

    fn llama(
        vocab_size: usize,
        hidden_size: usize,
        num_layers: usize,
        num_heads: usize,
        intermediate_size: usize,
        max_seq_len: usize,
    ) -> (c: ModelConfig)
        ensures
            plain_llama(c, vocab_size, hidden_size, num_layers, num_heads, intermediate_size, max_seq_len),
    {
        ModelConfig {
            vocab_size,
            hidden_size,
            num_layers,
            num_heads,
            num_kv_heads: Some(num_heads),
            intermediate_size,
            norm_eps: Real::Single(TEN_TO_MINUS_FIVE),
            max_seq_len,
            rope_theta: Real::Single(TEN_THOUSAND),
            tie_word_embeddings: false,
            sub_ln: false,
            rope_scaling: None,
            architecture: Architecture::Llama,
            activation: Activation::SiluGated,
            norm_type: NormType::RmsNorm,
            use_rope: true,
            position_embeddings: None,
            qk_norm: false,
            sliding_window: None,
            head_dim: None,
            one_centered_norm: false,
            post_ffn_norm: false,
            attn_logit_softcap: None,
            final_logit_softcap: None,
        }
    }

    /// The configuration of a small Llama.
    pub fn llama_small() -> (c: ModelConfig)
        ensures
            plain_llama(c, 32000, 4096, 32, 32, 11008, 2048),
    {
        ModelConfig::llama(32000, 4096, 32, 32, 11008, 2048)
    }

    /// The configuration of a very small model for tests.
    pub fn tiny_test() -> (c: ModelConfig)
        ensures
            plain_llama(c, 256, 64, 2, 4, 128, 128),
    {
        ModelConfig::llama(256, 64, 2, 4, 128, 128)
    }
}

/// A Llama configuration with the usual conventions and these dimensions.
pub open spec fn plain_llama(
    c: ModelConfig,
    vocab_size: usize,
    hidden_size: usize,
    num_layers: usize,
    num_heads: usize,
    intermediate_size: usize,
    max_seq_len: usize,
) -> bool {
    &&& c.vocab_size == vocab_size
    &&& c.hidden_size == hidden_size
    &&& c.num_layers == num_layers
    &&& c.num_heads == num_heads
    &&& c.num_kv_heads == Some(num_heads)
    &&& c.intermediate_size == intermediate_size
    &&& c.norm_eps == Real::Single(TEN_TO_MINUS_FIVE)
    &&& c.max_seq_len == max_seq_len
    &&& c.rope_theta == Real::Single(TEN_THOUSAND)
    &&& !c.tie_word_embeddings
    &&& !c.sub_ln
    &&& c.rope_scaling is None
    &&& c.architecture@ is Llama
    &&& c.activation is SiluGated
    &&& c.norm_type is RmsNorm
    &&& c.use_rope
    &&& c.position_embeddings is None
    &&& !c.qk_norm
    &&& c.sliding_window is None
    &&& c.head_dim is None
    &&& plain_extras(c)
}

/// No centered norms, no norm after the feed-forward block and no soft limits.
pub open spec fn plain_extras(c: ModelConfig) -> bool {
    &&& !c.one_centered_norm
    &&& !c.post_ffn_norm
    &&& c.attn_logit_softcap is None
    &&& c.final_logit_softcap is None
}

/// The number under a key, as a size.
pub open spec fn size_at(v: JsonModel, key: Seq<char>) -> Option<usize> {
    match v.natural_at(key) {
        Some(n) => Some(n as usize),
        None => None,
    }
}

/// The size under the first key that has one.
pub open spec fn size_at_either(v: JsonModel, key: Seq<char>, other: Seq<char>) -> Option<usize> {
    match size_at(v, key) {
        Some(n) => Some(n),
        None => size_at(v, other),
    }
}

/// A size, or the default where there is none.
pub open spec fn size_or(n: Option<usize>, default: usize) -> usize {
    match n {
        Some(n) => n,
        None => default,
    }
}

/// A float under a key, or the default where there is none.
pub open spec fn real_or(v: Option<u64>, default: u32) -> Real {
    match v {
        Some(x) => Real::Double(x),
        None => Real::Single(default),
    }
}

/// A boolean, or the default where there is none.
pub open spec fn truth_or(v: Option<bool>, default: bool) -> bool {
    match v {
        Some(b) => b,
        None => default,
    }
}

/// The epsilon of the norms.
pub open spec fn epsilon(v: JsonModel) -> Real {
    match v.double_at("rms_norm_eps"@) {
        Some(x) => Real::Double(x),
        None => real_or(v.double_at("layer_norm_eps"@), TEN_TO_MINUS_FIVE),
    }
}

/// The scaling under `rope_scaling`: only objects count; the kind is linear and the factor one
/// unless given.
pub open spec fn scaling_matches(v: JsonModel, s: Option<RopeScaling>) -> bool {
    match v.field("rope_scaling"@) {
        Some(o) => match o {
            JsonModel::Object(_) => {
                &&& s is Some
                &&& s.unwrap().kind@ == (match o.text_at("type"@) {
                    Some(t) => t,
                    None => "linear"@,
                })
                &&& s.unwrap().factor == real_or(o.double_at("factor"@), UNIT)
            },
            _ => s is None,
        },
        None => s is None,
    }
}

/// The value under the first of the keys that may hold an activation name.
pub open spec fn activation_entry(v: JsonModel) -> Option<JsonModel> {
    match v.field("hidden_act"@) {
        Some(a) => Some(a),
        None => match v.field("hidden_activation"@) {
            Some(a) => Some(a),
            None => v.field("activation_function"@),
        },
    }
}

/// The feed-forward block that a configuration asks for in a family.
pub open spec fn chosen_activation(v: JsonModel, arch: ArchitectureModel) -> Activation {
    match activation_entry(v) {
        Some(a) => match a.text() {
            Some(s) => named_activation(s, arch),
            None => arch.activation(),
        },
        None => arch.activation(),
    }
}

/// The family that a configuration belongs to; Llama where it names none.
pub open spec fn family(v: JsonModel) -> ArchitectureModel {
    match named_family(v) {
        Some(a) => a,
        None => ArchitectureModel::Llama,
    }
}

/// What is missing in a configuration, the first thing first.
pub open spec fn missing(v: JsonModel) -> Option<Seq<char>> {
    if size_at(v, "hidden_size"@) is None {
        Some("missing `hidden_size`"@)
    } else if size_at_either(v, "num_hidden_layers"@, "num_layers"@) is None {
        Some("missing `num_hidden_layers`"@)
    } else if size_at_either(v, "num_attention_heads"@, "num_heads"@) is None {
        Some("missing `num_attention_heads`"@)
    } else {
        None
    }
}

/// The configuration that a Hugging Face `config.json` describes, field by field.
pub open spec fn describes(v: JsonModel, c: ModelConfig) -> bool {
    let hidden = size_at(v, "hidden_size"@).unwrap();
    let arch = family(v);
    let max_len = size_or(size_at_either(v, "max_position_embeddings"@, "max_seq_len"@), 2048);
    &&& c.vocab_size == size_or(size_at(v, "vocab_size"@), 32000)
    &&& c.hidden_size == hidden
    &&& c.num_layers == size_at_either(v, "num_hidden_layers"@, "num_layers"@).unwrap()
    &&& c.num_heads == size_at_either(v, "num_attention_heads"@, "num_heads"@).unwrap()
    &&& c.num_kv_heads == size_at(v, "num_key_value_heads"@)
    &&& c.intermediate_size == size_or(size_at(v, "intermediate_size"@), hidden.wrapping_mul(4))
    &&& c.norm_eps == epsilon(v)
    &&& c.max_seq_len == max_len
    &&& c.rope_theta == real_or(v.double_at("rope_theta"@), TEN_THOUSAND)
    &&& c.tie_word_embeddings == truth_or(v.truth_at("tie_word_embeddings"@), false)
    &&& c.sub_ln == truth_or(v.truth_at("sub_ln"@), false)
    &&& scaling_matches(v, c.rope_scaling)
    &&& c.architecture@ == arch
    &&& c.activation == chosen_activation(v, arch)
    &&& c.norm_type == (if arch.classic() {
        NormType::LayerNorm
    } else {
        NormType::RmsNorm
    })
    &&& c.use_rope == truth_or(v.truth_at("use_rope"@), !arch.classic())
    &&& c.position_embeddings == (if arch.classic() {
        Some(size_or(size_at(v, "position_embeddings"@), max_len))
    } else {
        None
    })
    &&& c.qk_norm == truth_or(v.truth_at("qk_norm"@), arch is Gemma)
    &&& c.sliding_window == size_at(v, "sliding_window"@)
    &&& c.head_dim == size_at(v, "head_dim"@)
    &&& c.one_centered_norm == (arch is Gemma)
    &&& c.post_ffn_norm == second_gemma(v)
    &&& c.attn_logit_softcap == limit_at(v, "attn_logit_softcapping"@)
    &&& c.final_logit_softcap == limit_at(v, "final_logit_softcapping"@)
}

fn read_size(v: &Json, key: &str) -> (r: Option<usize>)
    ensures
        r == size_at(v@, key@),
{
    match v.u64_at(key) {
        Some(n) => Some(n as usize),
        None => None,
    }
}

fn read_size_either(v: &Json, key: &str, other: &str) -> (r: Option<usize>)
    ensures
        r == size_at_either(v@, key@, other@),
{
    match read_size(v, key) {
        Some(n) => Some(n),
        None => read_size(v, other),
    }
}

fn read_real(v: Option<u64>, default: u32) -> (r: Real)
    ensures
        r == real_or(v, default),
{
    match v {
        Some(x) => Real::Double(x),
        None => Real::Single(default),
    }
}

fn read_scaling(v: &Json) -> (r: Option<RopeScaling>)
    ensures
        scaling_matches(v@, r),
{
    match v.get("rope_scaling") {
        Some(o) => {
            if let Json::Object(_) = o {
                let kind: String = match o.str_at("type") {
                    Some(t) => t.to_owned(),
                    None => "linear".to_owned(),
                };
                Some(RopeScaling { kind, factor: read_real(o.f64_at("factor"), UNIT) })
            } else {
                None
            }
        },
        None => None,
    }
}

/// The soft limit under a key, if there is one.
pub open spec fn limit_at(v: JsonModel, key: Seq<char>) -> Option<Real> {
    match v.double_at(key) {
        Some(x) => Some(Real::Double(x)),
        None => None,
    }
}

fn read_limit(v: &Json, key: &str) -> (r: Option<Real>)
    ensures
        r == limit_at(v@, key@),
{
    match v.f64_at(key) {
        Some(x) => Some(Real::Double(x)),
        None => None,
    }
}

fn read_second_gemma(v: &Json) -> (r: bool)
    ensures
        r == second_gemma(v@),
{
    match read_class_name(v) {
        Some(s) => text::same(s, "Gemma2ForCausalLM") || text::same(s, "Gemma2Model"),
        None => match v.str_at("model_type") {
            Some(s) => text::same(s, "gemma2"),
            None => false,
        },
    }
}

fn read_activation(v: &Json, arch: &Architecture) -> (r: Activation)
    ensures
        r == chosen_activation(v@, arch@),
{
    let entry: Option<&Json> = match v.get("hidden_act") {
        Some(a) => Some(a),
        None => match v.get("hidden_activation") {
            Some(a) => Some(a),
            None => v.get("activation_function"),
        },
    };
    match entry {
        Some(a) => match a.as_str() {
            Some(s) => parse_activation(s, arch),
            None => arch.default_activation(),
        },
        None => arch.default_activation(),
    }
}

impl ModelConfig {
    /// Reads a Hugging Face configuration that has been parsed, or says what it lacks.
    pub fn from_huggingface(v: &Json) -> (r: Result<ModelConfig, String>)
        ensures
            match r {
                Ok(c) => missing(v@) is None && describes(v@, c),
                Err(m) => missing(v@) == Some(m@),
            },
    {
        let hidden_size: usize = match read_size(v, "hidden_size") {
            Some(n) => n,
            None => {
                return Err("missing `hidden_size`".to_owned());
            },
        };
        let num_layers: usize = match read_size_either(v, "num_hidden_layers", "num_layers") {
            Some(n) => n,
            None => {
                return Err("missing `num_hidden_layers`".to_owned());
            },
        };
        let num_heads: usize = match read_size_either(v, "num_attention_heads", "num_heads") {
            Some(n) => n,
            None => {
                return Err("missing `num_attention_heads`".to_owned());
            },
        };
        let architecture: Architecture = match Architecture::from_huggingface(v) {
            Some(a) => a,
            None => Architecture::Llama,
        };
        let max_seq_len: usize = match read_size_either(v, "max_position_embeddings", "max_seq_len") {
            Some(n) => n,
            None => 2048,
        };
        let norm_eps: Real = match v.f64_at("rms_norm_eps") {
            Some(x) => Real::Double(x),
            None => read_real(v.f64_at("layer_norm_eps"), TEN_TO_MINUS_FIVE),
        };
        let activation: Activation = read_activation(v, &architecture);
        let norm_type: NormType = if architecture.uses_rms_norm() { NormType::RmsNorm } else { NormType::LayerNorm };
        let use_rope: bool = match v.bool_at("use_rope") {
            Some(b) => b,
            None => architecture.uses_rope(),
        };
        let position_embeddings: Option<usize> = if architecture.uses_rope() {
            None
        } else {
            match read_size(v, "position_embeddings") {
                Some(n) => Some(n),
                None => Some(max_seq_len),
            }
        };
        let qk_norm: bool = match v.bool_at("qk_norm") {
            Some(b) => b,
            None => matches!(architecture, Architecture::Gemma),
        };
        let one_centered_norm: bool = matches!(architecture, Architecture::Gemma);
        Ok(
            ModelConfig {
                vocab_size: match read_size(v, "vocab_size") {
                    Some(n) => n,
                    None => 32000,
                },
                hidden_size,
                num_layers,
                num_heads,
                num_kv_heads: read_size(v, "num_key_value_heads"),
                intermediate_size: match read_size(v, "intermediate_size") {
                    Some(n) => n,
                    None => hidden_size.wrapping_mul(4),
                },
                norm_eps,
                max_seq_len,
                rope_theta: read_real(v.f64_at("rope_theta"), TEN_THOUSAND),
                tie_word_embeddings: match v.bool_at("tie_word_embeddings") {
                    Some(b) => b,
                    None => false,
                },
                sub_ln: match v.bool_at("sub_ln") {
                    Some(b) => b,
                    None => false,
                },
                rope_scaling: read_scaling(v),
                architecture,
                activation,
                norm_type,
                use_rope,
                position_embeddings,
                qk_norm,
                sliding_window: read_size(v, "sliding_window"),
                head_dim: read_size(v, "head_dim"),
                one_centered_norm,
                post_ffn_norm: read_second_gemma(v),
                attn_logit_softcap: read_limit(v, "attn_logit_softcapping"),
                final_logit_softcap: read_limit(v, "final_logit_softcapping"),
            },
        )
    }

    /// Parses a Hugging Face `config.json`. The errors are that of the parser, behind
    /// `JSON parse error: `, and the missing sizes.
    pub fn from_huggingface_json(json: &str) -> (r: Result<ModelConfig, String>)
        ensures
            match json::text_tree(json@) {
                Ok(v) => match r {
                    Ok(c) => missing(v) is None && describes(v, c),
                    Err(m) => missing(v) == Some(m@),
                },
                Err(e) => r is Err && r->Err_0@ == "JSON parse error: "@ + e,
            },
    {
        match json::parse(json) {
            Ok(v) => ModelConfig::from_huggingface(&v),
            Err(e) => Err(text::joined("JSON parse error: ", e.as_str())),
        }
    }
}

} // verus!
