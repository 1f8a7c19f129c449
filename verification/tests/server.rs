//! The server's decisions: prompts, plans, answers, errors, queue and model sources.
use bitllm::runtime::sampler::SamplingStrategy;
use bitllm::server::api::{
    answer_chat, answer_completion, chat_chunk, completion_chunk, error_response, load_failed,
    make_sampler, messages_to_prompt, plan_chat, plan_completion, plan_ws, resolve_name,
    service_unavailable, show, swap_failed, swap_options, ChatCompletionRequest, ChatMessage,
    CompletionRequest, ModelSwapRequest, WsRequest, DEFAULT_MAX_TOKENS, DEFAULT_TEMPERATURE,
};
use bitllm::server::cli::{choose_device, create_byte_tokenizer};
use bitllm::server::models::{
    builtin_config, load_builtin_model, load_gguf_model, load_safetensors_model, ModelLoadOptions,
    Source,
};
use bitllm::server::worker::{goes_on, Handed, Queue, WorkerError, DEFAULT_QUEUE_CAPACITY};
use bitllm::runtime::bits::{QuantConfig, QuantizedTensor};
use bitllm::runtime::gguf::GGUF_MAGIC;
use bitllm::runtime::gguf_loader::GgufLoader;
use bitllm::runtime::safetensors::SafeTensorsLoader;
use bitllm::tensor::tensor::Tensor;
use bitllm::tensor::types::Device;

fn message(role: &str, content: &str) -> ChatMessage {
    ChatMessage { role: role.to_string(), content: content.to_string() }
}

fn swap() -> ModelSwapRequest {
    ModelSwapRequest {
        gguf: None,
        safetensors: None,
        config_json: None,
        config: None,
        quantize: None,
        name: None,
    }
}

fn times(a: u32, b: u32) -> u32 {
    (f32::from_bits(a) * f32::from_bits(b)).to_bits()
}

fn pack(weight: &Tensor, _config: QuantConfig) -> QuantizedTensor {
    QuantizedTensor { signs: weight.to_bit1(), scales: vec![1.0f32.to_bits()] }
}

#[test]
fn a_conversation_is_written_role_by_role() {
    let got = messages_to_prompt(&[message("system", "be brief"), message("user", "hi")]);
    assert_eq!(got, "system\nbe brief\nuser\nhi\n");
    assert_eq!(messages_to_prompt(&[]), "");
}

#[test]
fn the_byte_tokenizer_gives_back_what_it_was_given() {
    let tokenizer = create_byte_tokenizer();
    for text in ["hello", "Hello, World!", "tabs\tand\nlines", "grüße"] {
        let tokens = tokenizer.encode(text);
        assert_eq!(show(&tokenizer, &tokens), text);
    }
    assert_eq!(tokenizer.encode("az"), vec![97, 122]);
    assert!(tokenizer.encode("日本").is_empty());
}

#[test]
fn samplers_follow_the_request() {
    assert!(matches!(make_sampler(None, 0.0f32.to_bits()).strategy, SamplingStrategy::Greedy));
    assert!(matches!(make_sampler(None, (-1.0f32).to_bits()).strategy, SamplingStrategy::Greedy));
    assert!(matches!(
        make_sampler(None, 0.7f32.to_bits()).strategy,
        SamplingStrategy::Temperature { .. }
    ));
    assert!(matches!(
        make_sampler(Some(40), 0.7f32.to_bits()).strategy,
        SamplingStrategy::TopK { k: 40, .. }
    ));
}

#[test]
fn plans_have_defaults() {
    let tokenizer = create_byte_tokenizer();
    let request = ChatCompletionRequest {
        messages: vec![message("user", "hi")],
        max_tokens: None,
        temperature: None,
        top_k: None,
        stream: None,
    };
    let plan = plan_chat(&tokenizer, &request);
    assert_eq!(plan.max_tokens, DEFAULT_MAX_TOKENS);
    assert_eq!(plan.tokens, tokenizer.encode("user\nhi\n"));
    assert!(!plan.stream);
    assert!(matches!(
        plan.sampler.strategy,
        SamplingStrategy::Temperature { temperature } if temperature == DEFAULT_TEMPERATURE
    ));
    let request = CompletionRequest {
        prompt: "abc".to_string(),
        max_tokens: Some(3),
        temperature: Some(0.0f32.to_bits()),
        top_k: None,
        stream: Some(true),
    };
    let plan = plan_completion(&tokenizer, &request);
    assert_eq!(plan.max_tokens, 3);
    assert_eq!(plan.tokens, tokenizer.encode("abc"));
    assert!(plan.stream);
}

#[test]
fn a_socket_request_needs_a_prompt() {
    let tokenizer = create_byte_tokenizer();
    let mut request = WsRequest {
        prompt: None,
        messages: None,
        max_tokens: None,
        temperature: None,
        top_k: None,
    };
    assert!(matches!(plan_ws(&tokenizer, &request), Err(m) if m == "expected `prompt` or `messages`"));
    request.messages = Some(vec![message("user", "x")]);
    assert!(matches!(plan_ws(&tokenizer, &request), Ok(p) if p.tokens == tokenizer.encode("user\nx\n")));
    request.prompt = Some("y".to_string());
    assert!(matches!(plan_ws(&tokenizer, &request), Ok(p) if p.tokens == tokenizer.encode("y")));
}

#[test]
fn answers_count_their_tokens() {
    let tokenizer = create_byte_tokenizer();
    let request = ChatCompletionRequest {
        messages: vec![message("user", "hi")],
        max_tokens: None,
        temperature: None,
        top_k: None,
        stream: None,
    };
    let generated = tokenizer.encode("yes");
    let answer = answer_chat(&tokenizer, &request, &generated, "7", 99, "m").unwrap();
    assert_eq!(answer.id, "chatcmpl-7");
    assert_eq!(answer.object, "chat.completion");
    assert_eq!(answer.created, 99);
    assert_eq!(answer.choices[0].message.role, "assistant");
    assert_eq!(answer.choices[0].message.content, "yes");
    assert_eq!(answer.choices[0].finish_reason.as_deref(), Some("stop"));
    let prompt = tokenizer.encode("user\nhi\n").len();
    assert_eq!(answer.usage.prompt_tokens, prompt);
    assert_eq!(answer.usage.completion_tokens, generated.len());
    assert_eq!(answer.usage.total_tokens, prompt + generated.len());

    let request = CompletionRequest {
        prompt: "abc".to_string(),
        max_tokens: None,
        temperature: None,
        top_k: None,
        stream: None,
    };
    let answer = answer_completion(&tokenizer, &request, &generated, "8", 1, "m").unwrap();
    assert_eq!(answer.id, "cmpl-8");
    assert_eq!(answer.object, "text_completion");
    assert_eq!(answer.choices[0].text, "yes");
}

#[test]
fn chunks_carry_one_token_or_the_end() {
    let tokenizer = create_byte_tokenizer();
    let token = tokenizer.encode("q")[0];
    let chunk = chat_chunk(&tokenizer, Some(token), "1", 2, "m");
    assert_eq!(chunk.choices[0].delta.content.as_deref(), Some("q"));
    assert_eq!(chunk.choices[0].finish_reason, None);
    let end = chat_chunk(&tokenizer, None, "1", 2, "m");
    assert_eq!(end.choices[0].delta.content, None);
    assert_eq!(end.choices[0].finish_reason.as_deref(), Some("stop"));
    let chunk = completion_chunk(&tokenizer, Some(token), "1", 2, "m");
    assert_eq!(chunk.choices[0].text, "q");
    let end = completion_chunk(&tokenizer, None, "1", 2, "m");
    assert_eq!(end.choices[0].text, "");
}

#[test]
fn errors_have_a_status_and_a_message() {
    let e = error_response(418, "teapot");
    assert_eq!((e.status, e.message.as_str(), e.error_type.as_str()), (418, "teapot", "server_error"));
    let e = service_unavailable(WorkerError::QueueFull(12));
    assert_eq!(e.status, 503);
    assert_eq!(e.message, "inference queue is full (max 12 pending)");
    assert_eq!(load_failed("no file").message, "model load failed: no file");
    assert_eq!(load_failed("no file").status, 400);
    assert_eq!(swap_failed("gone").status, 500);
}

#[test]
fn a_swap_must_name_a_source() {
    let e = swap_options(&swap()).unwrap_err();
    assert_eq!(e.status, 400);
    assert!(e.message.contains("requires gguf, safetensors, or config"));
    let mut request = swap();
    request.config = Some("tiny".to_string());
    request.name = Some("swapped-model".to_string());
    let options = swap_options(&request).unwrap();
    assert_eq!(options.config, "tiny");
    assert_eq!(options.device, Device::Cpu);
    assert_eq!(options.source(), Source::Builtin("tiny".to_string()));
    assert_eq!(resolve_name(&request.name, "own"), "swapped-model");
    assert_eq!(resolve_name(&None, "own"), "own");
}

#[test]
fn sources_are_tried_in_order() {
    let options = ModelLoadOptions {
        gguf: Some("a.gguf".to_string()),
        safetensors: Some("b.safetensors".to_string()),
        config_json: None,
        config: "small".to_string(),
        quantize: None,
        device: Device::Cpu,
    };
    assert_eq!(options.source().name(), "gguf:a.gguf");
    let options = ModelLoadOptions { gguf: None, ..options };
    assert_eq!(options.source().name(), "safetensors:b.safetensors");
    let options = ModelLoadOptions { safetensors: None, ..options };
    assert_eq!(options.source().name(), "config:small");
}

#[test]
fn built_in_models() {
    assert_eq!(builtin_config("small").hidden_size, 4096);
    assert_eq!(builtin_config("tiny").hidden_size, 64);
    assert_eq!(builtin_config("anything").hidden_size, 64);
    let loaded = load_builtin_model("tiny");
    assert_eq!(loaded.name, "bitllm-model");
    assert_eq!(loaded.source, "config:tiny");
    assert_eq!(loaded.model.layers.len(), 2);
}

#[test]
fn a_file_without_a_configuration_is_refused() {
    let mut file = Vec::new();
    file.extend_from_slice(&GGUF_MAGIC.to_le_bytes());
    file.extend_from_slice(&3u32.to_le_bytes());
    file.extend_from_slice(&0u64.to_le_bytes());
    file.extend_from_slice(&0u64.to_le_bytes());
    file.resize(32, 0);
    let loader = GgufLoader::load(&file).unwrap();
    let r = load_gguf_model(&loader, "x.gguf", Device::Cpu, &times);
    assert!(matches!(r, Err(m) if m == "Could not extract config from GGUF metadata"));
}

#[test]
fn a_weights_file_names_its_model() {
    let header = r#"{"__metadata__": {"format": "pt"}}"#;
    let mut file = Vec::new();
    file.extend_from_slice(&(header.len() as u64).to_le_bytes());
    file.extend_from_slice(header.as_bytes());
    let loader = SafeTensorsLoader::from_bytes(&file).unwrap();
    let config = builtin_config("tiny");
    let (loaded, stats) = load_safetensors_model(&loader, "w", &config, None, &pack);
    assert_eq!(loaded.source, "safetensors:w");
    assert_eq!(stats.loaded, 0);
    assert!(!loaded.name.is_empty());
}

#[test]
fn a_full_queue_refuses_and_counts() {
    assert_eq!(DEFAULT_QUEUE_CAPACITY, 64);
    let mut queue = Queue::with_capacity(0);
    assert_eq!(queue.capacity, 1);
    assert_eq!(queue.enqueue(Handed::Taken), Ok(()));
    assert_eq!(queue.enqueue(Handed::Full), Err(WorkerError::QueueFull(1)));
    assert_eq!(queue.rejected, 1);
    assert_eq!(queue.enqueue(Handed::Closed), Err(WorkerError::QueueFull(1)));
    assert_eq!(queue.rejected, 1);
    assert_eq!(queue.queue_depth(0), 1);
    assert_eq!(WorkerError::QueueFull(3).message(), "inference queue is full (max 3 pending)");
}

#[test]
fn devices() {
    assert_eq!(choose_device(-1, true), Device::Cpu);
    assert_eq!(choose_device(0, false), Device::Cpu);
    assert_eq!(choose_device(1, true), Device::Gpu { device_id: 1 });
}

#[test]
fn a_stream_goes_on_while_somebody_listens() {
    assert!(goes_on(true, 2, 3));
    assert!(!goes_on(true, 3, 3));
    assert!(!goes_on(false, 0, 3));
    assert!(!goes_on(true, 0, 0));
}
