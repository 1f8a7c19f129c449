//! Where a model comes from.
use crate::runtime::bits;
use crate::runtime::bits::QuantizedTensor;
use crate::runtime::bits::QuantConfig;
use crate::runtime::blank;
use crate::runtime::config;
use crate::runtime::config::ModelConfig;
use crate::runtime::gguf;
use crate::runtime::gguf_loader;
use crate::runtime::gguf_loader::GgufLoader;
use crate::runtime::loading;
use crate::runtime::loading::LoadingStats;
use crate::runtime::model::Model;
use crate::runtime::safetensors;
use crate::runtime::safetensors::SafeTensorsLoader;
use crate::tensor::shape;
use crate::tensor::tensor::Tensor;
use crate::tensor::types::Device;
use crate::text;
use vstd::prelude::*;

verus! {

/// Where a model is to be loaded from, and how.
#[derive(Debug)]
pub struct ModelLoadOptions {
    pub gguf: Option<String>,
    pub safetensors: Option<String>,
    pub config_json: Option<String>,
    pub config: String,
    pub quantize: Option<String>,
    pub device: Device,
}

/// A model with its name and where it came from.
pub struct LoadedModel {
    pub model: Model,
    pub name: String,
    pub source: String,
}

/// The file that a model is loaded from, or the name of a built-in configuration.
#[derive(Debug, PartialEq, Eq)]
pub enum Source {
    Gguf(String),
    Safetensors(String),
    Builtin(String),
}

impl Source {
    /// What the source is called.
    pub open spec fn text(self) -> Seq<char> {
        match self {
            Source::Gguf(p) => "gguf:"@ + p@,
            Source::Safetensors(p) => "safetensors:"@ + p@,
            Source::Builtin(p) => "config:"@ + p@,
        }
    }

    /// What the source is called.
    pub fn name(&self) -> (r: String)
        ensures
            r@ == self.text(),
    {
        match self {
            Source::Gguf(p) => text::joined("gguf:", p),
            Source::Safetensors(p) => text::joined("safetensors:", p),
            Source::Builtin(p) => text::joined("config:", p),
        }
    }
}

impl ModelLoadOptions {
    /// The source that counts: a GGUF file before a SafeTensors file before a configuration.
    pub fn source(&self) -> (r: Source)
        ensures
            match (self.gguf, self.safetensors) {
                (Some(p), _) => r matches Source::Gguf(q) && q@ == p@,
                (None, Some(p)) => r matches Source::Safetensors(q) && q@ == p@,
                (None, None) => r matches Source::Builtin(q) && q@ == self.config@,
            },
    {
        match &self.gguf {
            Some(p) => Source::Gguf(p.clone()),
            None => match &self.safetensors {
                Some(p) => Source::Safetensors(p.clone()),
                None => Source::Builtin(self.config.clone()),
            },
        }
    }
}

/// The built-in configuration of that name.
pub fn builtin_config(name: &str) -> (c: ModelConfig)
    ensures
        if name@ == "small"@ {
            config::plain_llama(c, 32000, 4096, 32, 32, 11008, 2048)
        } else {
            config::plain_llama(c, 256, 64, 2, 4, 128, 128)
        },
{
    if text::same(name, "small") {
        ModelConfig::llama_small()
    } else {
        ModelConfig::tiny_test()
    }
}

/// The name that a GGUF file gives its model.
pub open spec fn gguf_name(entries: Seq<(Seq<char>, gguf::MetaModel)>) -> Seq<char> {
    match gguf::last_entry(entries, "general.name"@) {
        Some(v) => match v.text() {
            Some(s) => s,
            None => "bitllm-model"@,
        },
        None => "bitllm-model"@,
    }
}

/// The text under a key; the first one counts.
pub open spec fn text_under(list: Seq<(Seq<char>, Seq<char>)>, key: Seq<char>) -> Option<Seq<char>>
    decreases list.len(),
{
    if list.len() == 0 {
        None
    } else if list[0].0 == key {
        Some(list[0].1)
    } else {
        text_under(list.drop_first(), key)
    }
}

/// The name that a SafeTensors file gives its model.
pub open spec fn safetensors_name(list: Seq<(Seq<char>, Seq<char>)>) -> Seq<char> {
    match text_under(list, "model_name"@) {
        Some(s) => s,
        None => "bitllm-model"@,
    }
}

/// Finds the name that a SafeTensors file gives its model.
fn find_name(list: &Vec<(String, String)>) -> (r: String)
    ensures
        r@ == safetensors_name(safetensors::pairs(list@)),
{
    let ghost model = safetensors::pairs(list@);
    let n: usize = list.len();
    let mut i: usize = 0;
    assert(model.skip(0) =~= model);
    while i < n
        invariant
            n == list@.len(),
            model == safetensors::pairs(list@),
            i <= n,
            text_under(model, "model_name"@) == text_under(model.skip(i as int), "model_name"@),
        decreases n - i,
    {
        assert(model.skip(i as int).drop_first() =~= model.skip(i + 1));
        assert(model.skip(i as int)[0] == model[i as int]);
        if text::same(&list[i].0, "model_name") {
            return list[i].1.clone();
        }
        i = i + 1;
    }
    "bitllm-model".to_owned()
}

/// A model was made by a configuration and then filled out of a GGUF file.
pub open spec fn from_gguf<M: Fn(u32, u32) -> u32>(loader: GgufLoader<'_>, device: Device, times: M, m: Model) -> bool {
    exists|c: ModelConfig, start: Model|
        {
            &&& #[trigger] gguf_loader::described(loader.header@.metadata, c)
            &&& #[trigger] blank::blank_model(start, c)
            &&& gguf_loader::filled_from(loader.header@, loader.data@, loader.data_offset as int, times, device, c, start, m)
        }
}

/// Every tensor of a GGUF file can be read, and whatever configuration the file describes can be
/// built.
pub open spec fn gguf_usable(loader: GgufLoader<'_>) -> bool {
    &&& forall|i: int|
        0 <= i < loader.header@.tensors.len() ==> gguf_loader::gives_readable(
            loader.header@,
            loader.data@.len() as int,
            loader.data_offset as int,
            #[trigger] loader.header@.tensors[i].name,
        )
    &&& forall|c: ModelConfig| #[trigger] gguf_loader::described(loader.header@.metadata, c) ==> c.buildable()
}

/// Makes the model of a GGUF file; says why where the file does not describe one.
pub fn load_gguf_model<M: Fn(u32, u32) -> u32>(loader: &GgufLoader<'_>, path: &str, device: Device, times: &M) -> (r: Result<
    LoadedModel,
    String,
>)
    requires
        gguf_usable(*loader),
        forall|a: u32, b: u32| #[trigger] call_requires(*times, (a, b)),
    ensures
        match r {
            Ok(l) => {
                &&& gguf_loader::has_config(loader.header@.metadata)
                &&& from_gguf(*loader, device, *times, l.model)
                &&& l.name@ == gguf_name(loader.header@.metadata)
                &&& l.source@ == "gguf:"@ + path@
            },
            Err(m) => !gguf_loader::has_config(loader.header@.metadata) && m@ == "Could not extract config from GGUF metadata"@,
        },
{
    let c: ModelConfig = match loader.config_from_metadata() {
        Some(c) => c,
        None => {
            return Err("Could not extract config from GGUF metadata".to_owned());
        },
    };
    let name: String = match loader.metadata_str("general.name") {
        Some(s) => s.to_owned(),
        None => "bitllm-model".to_owned(),
    };
    assert(gguf_loader::described(loader.header@.metadata, c));
    let kept: ModelConfig = c.clone();
    let mut model: Model = Model::new(c);
    let ghost start = model;
    gguf_loader::load_gguf_weights(&mut model, loader, device, &kept, times);
    proof {
        assert(blank::blank_model(start, c));
    }
    Ok(LoadedModel { model, name, source: text::joined("gguf:", path) })
}

/// Makes the model of a SafeTensors file with a configuration; what became of the tensors comes
/// with it.
pub fn load_safetensors_model<Q: Fn(&Tensor, QuantConfig) -> QuantizedTensor>(
    loader: &SafeTensorsLoader,
    path: &str,
    config: &ModelConfig,
    quantize: Option<&str>,
    pack: &Q,
) -> (r: (LoadedModel, LoadingStats))
    requires
        config.buildable(),
        loading::bringable(loader.header@, loader.data@, *config, *config),
        bits::packs(*pack),
    ensures
        exists|c: ModelConfig, start: Model| #[trigger]
            blank::blank_model(start, c) && c.same(*config) && loading::loaded_from(
                loader.header@,
                loader.data@,
                *config,
                quantize matches Some(q) && q@ == "ternary"@,
                *pack,
                start,
                r.0.model,
                r.1,
            ),
        r.0.name@ == safetensors_name(loader.header@.metadata),
        r.0.source@ == "safetensors:"@ + path@,
{
    let name: String = find_name(loader.metadata());
    let own: ModelConfig = config.clone();
    let mut model: Model = Model::new(own);
    let ghost start = model;
    proof {
        loading::same_bringable(loader.header@, loader.data@, *config, *config, model.config);
    }
    let stats: LoadingStats = loading::load_safetensors_weights(&mut model, loader, config, quantize, pack);
    assert(blank::blank_model(start, own));
    (LoadedModel { model, name, source: text::joined("safetensors:", path) }, stats)
}

/// Makes the model of a built-in configuration.
pub fn load_builtin_model(name: &str) -> (r: LoadedModel)
    requires
        name@ == "small"@ ==> usize::MAX >= 0xffff_ffff_ffff,
    ensures
        exists|c: ModelConfig| #[trigger]
            blank::blank_model(r.model, c) && (if name@ == "small"@ {
                config::plain_llama(c, 32000, 4096, 32, 32, 11008, 2048)
            } else {
                config::plain_llama(c, 256, 64, 2, 4, 128, 128)
            }),
        r.name@ == "bitllm-model"@,
        r.source@ == "config:"@ + name@,
{
    let c: ModelConfig = builtin_config(name);
    proof {
        builtin_can_be_built(c);
    }
    let model: Model = Model::new(c);
    assert(blank::blank_model(model, c));
    LoadedModel { model, name: "bitllm-model".to_owned(), source: text::joined("config:", name) }
}

/// The built-in configurations can be built: the tiny one everywhere, the small one where sizes
/// have 48 bits or more.
pub proof fn builtin_can_be_built(c: ModelConfig)
    requires
        (usize::MAX >= 0xffff_ffff_ffff && config::plain_llama(c, 32000, 4096, 32, 32, 11008, 2048)) || config::plain_llama(
            c,
            256,
            64,
            2,
            4,
            128,
            128,
        ),
    ensures
        c.buildable(),
{
    if config::plain_llama(c, 32000, 4096, 32, 32, 11008, 2048) {
        assert(c.head_width() == 128);
        assert(c.kv_heads() * c.head_width() == 4096);
        shape::product_two(32000, 4096);
        shape::product_one(4096);
        shape::product_two(4096, 4096);
        shape::product_two(11008, 4096);
        shape::product_two(4096, 11008);
        shape::product_two(32, 128);
        shape::product_four(1, 32, 2048, 128);
    } else {
        assert(c.head_width() == 16);
        assert(c.kv_heads() * c.head_width() == 64);
        shape::product_two(256, 64);
        shape::product_one(64);
        shape::product_two(64, 64);
        shape::product_two(128, 64);
        shape::product_two(64, 128);
        shape::product_two(4, 16);
        shape::product_four(1, 4, 128, 16);
    }
}

} // verus!
