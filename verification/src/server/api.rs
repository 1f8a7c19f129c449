//! Requests and answers.
use super::models::ModelLoadOptions;
use super::worker::WorkerError;
use crate::runtime::sampler;
use crate::runtime::sampler::{Sampler, SamplingStrategy};
use crate::tensor::types::Device;
use crate::text;
use crate::tokenizer::bpe;
use crate::tokenizer::bpe::{BpeModel, BpeTokenizer};
use vstd::prelude::*;

verus! {

/// How many tokens are generated at most, unless told otherwise.
pub const DEFAULT_MAX_TOKENS: usize = 256;

/// The temperature, unless told otherwise: the bits of 0.7.
pub const DEFAULT_TEMPERATURE: u32 = 0x3f33_3333;

/// A message of a conversation.
#[derive(Debug)]
pub struct ChatMessage {
    pub role: String,
    pub content: String,
}

/// A request to go on with a conversation; floats by their bits.
#[derive(Debug)]
pub struct ChatCompletionRequest {
    pub messages: Vec<ChatMessage>,
    pub max_tokens: Option<usize>,
    pub temperature: Option<u32>,
    pub top_k: Option<usize>,
    pub stream: Option<bool>,
}

/// A request to go on with a text; floats by their bits.
#[derive(Debug)]
pub struct CompletionRequest {
    pub prompt: String,
    pub max_tokens: Option<usize>,
    pub temperature: Option<u32>,
    pub top_k: Option<usize>,
    pub stream: Option<bool>,
}

/// A request over a socket; floats by their bits.
#[derive(Debug)]
pub struct WsRequest {
    pub prompt: Option<String>,
    pub messages: Option<Vec<ChatMessage>>,
    pub max_tokens: Option<usize>,
    pub temperature: Option<u32>,
    pub top_k: Option<usize>,
}

/// A request to use another model.
#[derive(Debug)]
pub struct ModelSwapRequest {
    pub gguf: Option<String>,
    pub safetensors: Option<String>,
    pub config_json: Option<String>,
    pub config: Option<String>,
    pub quantize: Option<String>,
    pub name: Option<String>,
}

/// The text of a conversation: each message has its role on one line and its content on the next.
pub open spec fn transcript(messages: Seq<ChatMessage>) -> Seq<char>
    decreases messages.len(),
{
    if messages.len() == 0 {
        Seq::empty()
    } else {
        transcript(messages.drop_last()) + messages.last().role@ + "\n"@ + messages.last().content@ + "\n"@
    }
}

/// Writes a conversation as a text.
pub fn messages_to_prompt(messages: &[ChatMessage]) -> (r: String)
    ensures
        r@ == transcript(messages@),
{
    let mut out: String = String::new();
    let mut i: usize = 0;
    assert(messages@.take(0) =~= Seq::<ChatMessage>::empty());
    assert(out@ =~= transcript(messages@.take(0)));
    while i < messages.len()
        invariant
            i <= messages@.len(),
            out@ == transcript(messages@.take(i as int)),
        decreases messages@.len() - i,
    {
        assert(messages@.take(i + 1).drop_last() =~= messages@.take(i as int));
        let a: String = text::joined(&out, &messages[i].role);
        let b: String = text::joined(&a, "\n");
        let c: String = text::joined(&b, &messages[i].content);
        out = text::joined(&c, "\n");
        i = i + 1;
    }
    assert(messages@.take(messages@.len() as int) =~= messages@);
    out
}

/// How tokens are picked: among the most likely where a number is given, always the most likely at
/// a temperature of zero or less, by the temperature otherwise.
pub open spec fn strategy_for(top_k: Option<usize>, temperature: u32) -> SamplingStrategy {
    match top_k {
        Some(k) => SamplingStrategy::TopK { k, temperature },
        None => if sampler::at_most(temperature, 0) {
            SamplingStrategy::Greedy
        } else {
            SamplingStrategy::Temperature { temperature }
        },
    }
}

/// Makes the sampler for a request.
pub fn make_sampler(top_k: Option<usize>, temperature: u32) -> (r: Sampler)
    ensures
        r.strategy == strategy_for(top_k, temperature),
{
    match top_k {
        Some(k) => Sampler::top_k(k, temperature),
        None => if sampler::test_at_most(temperature, 0) {
            Sampler::greedy()
        } else {
            Sampler::temperature(temperature)
        },
    }
}

/// What is to be generated.
pub struct Plan {
    pub tokens: Vec<u32>,
    pub max_tokens: usize,
    pub sampler: Sampler,
    pub stream: bool,
}

/// A number, or the default where there is none.
pub open spec fn or_else(n: Option<usize>, default: usize) -> usize {
    match n {
        Some(n) => n,
        None => default,
    }
}

/// The plan for a prompt.
pub open spec fn plans(
    m: BpeModel,
    prompt: Seq<char>,
    max_tokens: Option<usize>,
    temperature: Option<u32>,
    top_k: Option<usize>,
    stream: Option<bool>,
    p: Plan,
) -> bool {
    &&& p.tokens@ == bpe::mark(m.config.bos_token, true) + m.encoded(prompt)
    &&& p.max_tokens == or_else(max_tokens, DEFAULT_MAX_TOKENS)
    &&& p.sampler.strategy == strategy_for(
        top_k,
        match temperature {
            Some(t) => t,
            None => DEFAULT_TEMPERATURE,
        },
    )
    &&& p.stream == (stream == Some(true))
}

/// Makes the plan for a prompt.
fn plan(
    tokenizer: &BpeTokenizer,
    prompt: &str,
    max_tokens: Option<usize>,
    temperature: Option<u32>,
    top_k: Option<usize>,
    stream: Option<bool>,
) -> (r: Plan)
    requires
        tokenizer.wf(),
    ensures
        plans(tokenizer@, prompt@, max_tokens, temperature, top_k, stream, r),
{
    let warmth: u32 = match temperature {
        Some(t) => t,
        None => DEFAULT_TEMPERATURE,
    };
    let tokens: Vec<u32> = tokenizer.encode_with_special(prompt, true, false);
    assert(tokens@ =~= bpe::mark(tokenizer@.config.bos_token, true) + tokenizer@.encoded(prompt@));
    Plan {
        tokens,
        max_tokens: match max_tokens {
            Some(n) => n,
            None => DEFAULT_MAX_TOKENS,
        },
        sampler: make_sampler(top_k, warmth),
        stream: match stream {
            Some(b) => b,
            None => false,
        },
    }
}

/// The plan for a conversation.
pub fn plan_chat(tokenizer: &BpeTokenizer, request: &ChatCompletionRequest) -> (r: Plan)
    requires
        tokenizer.wf(),
    ensures
        plans(
            tokenizer@,
            transcript(request.messages@),
            request.max_tokens,
            request.temperature,
            request.top_k,
            request.stream,
            r,
        ),
{
    let prompt: String = messages_to_prompt(request.messages.as_slice());
    plan(tokenizer, &prompt, request.max_tokens, request.temperature, request.top_k, request.stream)
}

/// The plan for a text.
pub fn plan_completion(tokenizer: &BpeTokenizer, request: &CompletionRequest) -> (r: Plan)
    requires
        tokenizer.wf(),
    ensures
        plans(tokenizer@, request.prompt@, request.max_tokens, request.temperature, request.top_k, request.stream, r),
{
    plan(tokenizer, &request.prompt, request.max_tokens, request.temperature, request.top_k, request.stream)
}

/// The prompt of a request over a socket: a text before a conversation.
pub open spec fn ws_prompt(request: WsRequest) -> Option<Seq<char>> {
    match (request.prompt, request.messages) {
        (Some(p), _) => Some(p@),
        (None, Some(messages)) => Some(transcript(messages@)),
        (None, None) => None,
    }
}

/// The plan for a request over a socket; says what is missing where there is no prompt.
pub fn plan_ws(tokenizer: &BpeTokenizer, request: &WsRequest) -> (r: Result<Plan, String>)
    requires
        tokenizer.wf(),
    ensures
        match ws_prompt(*request) {
            Some(p) => r matches Ok(made) && plans(
                tokenizer@,
                p,
                request.max_tokens,
                request.temperature,
                request.top_k,
                Some(true),
                made,
            ),
            None => r matches Err(m) && m@ == "expected `prompt` or `messages`"@,
        },
{
    let prompt: String = match (&request.prompt, &request.messages) {
        (Some(p), _) => p.clone(),
        (None, Some(messages)) => messages_to_prompt(messages.as_slice()),
        (None, None) => {
            return Err("expected `prompt` or `messages`".to_owned());
        },
    };
    Ok(plan(tokenizer, &prompt, request.max_tokens, request.temperature, request.top_k, Some(true)))
}

/// How many tokens went in and came out.
#[derive(Debug, Clone, Copy, PartialEq, Eq, Structural)]
pub struct Usage {
    pub prompt_tokens: usize,
    pub completion_tokens: usize,
    pub total_tokens: usize,
}

/// One answer in a conversation.
#[derive(Debug)]
pub struct Choice {
    pub index: usize,
    pub message: ChatMessage,
    pub finish_reason: Option<String>,
}

/// The answer to a conversation.
#[derive(Debug)]
pub struct ChatCompletionResponse {
    pub id: String,
    pub object: String,
    pub created: i64,
    pub model: String,
    pub choices: Vec<Choice>,
    pub usage: Usage,
}

/// One continuation of a text.
#[derive(Debug)]
pub struct CompletionChoice {
    pub index: usize,
    pub text: String,
    pub finish_reason: Option<String>,
}

/// The answer to a text.
#[derive(Debug)]
pub struct CompletionResponse {
    pub id: String,
    pub object: String,
    pub created: i64,
    pub model: String,
    pub choices: Vec<CompletionChoice>,
    pub usage: Usage,
}

/// What a piece of an answer adds.
#[derive(Debug)]
pub struct Delta {
    pub role: Option<String>,
    pub content: Option<String>,
}

/// A piece of one answer.
#[derive(Debug)]
pub struct ChunkChoice {
    pub index: usize,
    pub delta: Delta,
    pub finish_reason: Option<String>,
}

/// A piece of the answer to a conversation.
#[derive(Debug)]
pub struct ChatCompletionChunk {
    pub id: String,
    pub object: String,
    pub created: i64,
    pub model: String,
    pub choices: Vec<ChunkChoice>,
}

/// A piece of the answer to a text.
#[derive(Debug)]
pub struct CompletionChunk {
    pub id: String,
    pub object: String,
    pub created: i64,
    pub model: String,
    pub choices: Vec<CompletionChoice>,
}

/// The text that is shown for tokens; none where one of them is unknown.
pub open spec fn shown(m: BpeModel, tokens: Seq<u32>) -> Seq<char> {
    match m.spelled(tokens) {
        Ok(bytes) => text::read_as(bytes),
        Err(_) => Seq::empty(),
    }
}

/// Makes the text that is shown for tokens.
pub fn show(tokenizer: &BpeTokenizer, tokens: &[u32]) -> (r: String)
    ensures
        r@ == shown(tokenizer@, tokens@),
{
    match tokenizer.decode(tokens) {
        Ok(s) => s,
        Err(_) => {
            let s: String = String::new();
            assert(s@ =~= Seq::<char>::empty());
            s
        },
    }
}

/// Counts tokens.
pub open spec fn usage_is(u: Usage, prompt: int, completion: int) -> bool {
    u.prompt_tokens == prompt && u.completion_tokens == completion && u.total_tokens == prompt + completion
}

/// The answer ended on its own.
pub open spec fn stopped(reason: Option<String>) -> bool {
    reason matches Some(s) && s@ == "stop"@
}

/// Makes the answer to a conversation, where its tokens can be counted.
pub fn answer_chat(
    tokenizer: &BpeTokenizer,
    request: &ChatCompletionRequest,
    generated: &[u32],
    unique: &str,
    created: i64,
    model: &str,
) -> (r: Option<ChatCompletionResponse>)
    requires
        tokenizer.wf(),
    ensures
        match r {
            Some(r) => {
                &&& r.id@ == "chatcmpl-"@ + unique@
                &&& r.object@ == "chat.completion"@
                &&& r.created == created
                &&& r.model@ == model@
                &&& r.choices@.len() == 1
                &&& r.choices@[0].index == 0
                &&& r.choices@[0].message.role@ == "assistant"@
                &&& r.choices@[0].message.content@ == shown(tokenizer@, generated@)
                &&& stopped(r.choices@[0].finish_reason)
                &&& usage_is(r.usage, tokenizer@.encoded(transcript(request.messages@)).len() as int, generated@.len() as int)
            },
            None => tokenizer@.encoded(transcript(request.messages@)).len() + generated@.len() > usize::MAX,
        },
{
    let prompt: String = messages_to_prompt(request.messages.as_slice());
    let prompt_tokens: usize = tokenizer.encode(&prompt).len();
    let content: String = show(tokenizer, generated);
    let choice: Choice = Choice {
        index: 0,
        message: ChatMessage { role: "assistant".to_owned(), content },
        finish_reason: Some("stop".to_owned()),
    };
    let total_tokens: usize = match prompt_tokens.checked_add(generated.len()) {
        Some(n) => n,
        None => {
            return None;
        },
    };
    let mut choices: Vec<Choice> = Vec::new();
    choices.push(choice);
    Some(
        ChatCompletionResponse {
            id: text::joined("chatcmpl-", unique),
            object: "chat.completion".to_owned(),
            created,
            model: model.to_owned(),
            choices,
            usage: Usage { prompt_tokens, completion_tokens: generated.len(), total_tokens },
        },
    )
}

/// Makes the answer to a text, where its tokens can be counted.
pub fn answer_completion(
    tokenizer: &BpeTokenizer,
    request: &CompletionRequest,
    generated: &[u32],
    unique: &str,
    created: i64,
    model: &str,
) -> (r: Option<CompletionResponse>)
    requires
        tokenizer.wf(),
    ensures
        match r {
            Some(r) => {
                &&& r.id@ == "cmpl-"@ + unique@
                &&& r.object@ == "text_completion"@
                &&& r.created == created
                &&& r.model@ == model@
                &&& r.choices@.len() == 1
                &&& r.choices@[0].index == 0
                &&& r.choices@[0].text@ == shown(tokenizer@, generated@)
                &&& stopped(r.choices@[0].finish_reason)
                &&& usage_is(r.usage, tokenizer@.encoded(request.prompt@).len() as int, generated@.len() as int)
            },
            None => tokenizer@.encoded(request.prompt@).len() + generated@.len() > usize::MAX,
        },
{
    let prompt_tokens: usize = tokenizer.encode(&request.prompt).len();
    let shown_text: String = show(tokenizer, generated);
    let total_tokens: usize = match prompt_tokens.checked_add(generated.len()) {
        Some(n) => n,
        None => {
            return None;
        },
    };
    let mut choices: Vec<CompletionChoice> = Vec::new();
    choices.push(CompletionChoice { index: 0, text: shown_text, finish_reason: Some("stop".to_owned()) });
    Some(
        CompletionResponse {
            id: text::joined("cmpl-", unique),
            object: "text_completion".to_owned(),
            created,
            model: model.to_owned(),
            choices,
            usage: Usage { prompt_tokens, completion_tokens: generated.len(), total_tokens },
        },
    )
}

/// Makes a piece of the answer to a conversation: the text of one token, or the end.
pub fn chat_chunk(tokenizer: &BpeTokenizer, token: Option<u32>, unique: &str, created: i64, model: &str) -> (r: ChatCompletionChunk)
    ensures
        r.id@ == "chatcmpl-"@ + unique@,
        r.object@ == "chat.completion.chunk"@,
        r.created == created,
        r.model@ == model@,
        r.choices@.len() == 1,
        r.choices@[0].index == 0,
        r.choices@[0].delta.role is None,
        match token {
            Some(t) => (r.choices@[0].delta.content matches Some(s) && s@ == shown(tokenizer@, seq![t]))
                && r.choices@[0].finish_reason is None,
            None => r.choices@[0].delta.content is None && stopped(r.choices@[0].finish_reason),
        },
{
    let choice: ChunkChoice = match token {
        Some(t) => {
            let one: [u32; 1] = [t];
            assert(one@ =~= seq![t]);
            ChunkChoice { index: 0, delta: Delta { role: None, content: Some(show(tokenizer, &one)) }, finish_reason: None }
        },
        None => ChunkChoice { index: 0, delta: Delta { role: None, content: None }, finish_reason: Some("stop".to_owned()) },
    };
    let mut choices: Vec<ChunkChoice> = Vec::new();
    choices.push(choice);
    ChatCompletionChunk {
        id: text::joined("chatcmpl-", unique),
        object: "chat.completion.chunk".to_owned(),
        created,
        model: model.to_owned(),
        choices,
    }
}

/// Makes a piece of the answer to a text: the text of one token, or the end.
pub fn completion_chunk(tokenizer: &BpeTokenizer, token: Option<u32>, unique: &str, created: i64, model: &str) -> (r: CompletionChunk)
    ensures
        r.id@ == "cmpl-"@ + unique@,
        r.object@ == "text_completion"@,
        r.created == created,
        r.model@ == model@,
        r.choices@.len() == 1,
        r.choices@[0].index == 0,
        match token {
            Some(t) => r.choices@[0].text@ == shown(tokenizer@, seq![t]) && r.choices@[0].finish_reason is None,
            None => r.choices@[0].text@.len() == 0 && stopped(r.choices@[0].finish_reason),
        },
{
    let choice: CompletionChoice = match token {
        Some(t) => {
            let one: [u32; 1] = [t];
            assert(one@ =~= seq![t]);
            CompletionChoice { index: 0, text: show(tokenizer, &one), finish_reason: None }
        },
        None => CompletionChoice { index: 0, text: String::new(), finish_reason: Some("stop".to_owned()) },
    };
    let mut choices: Vec<CompletionChoice> = Vec::new();
    choices.push(choice);
    CompletionChunk {
        id: text::joined("cmpl-", unique),
        object: "text_completion".to_owned(),
        created,
        model: model.to_owned(),
        choices,
    }
}

/// An answer that reports an error: its HTTP status, a message and a kind.
#[derive(Debug)]
pub struct ErrorReply {
    pub status: u16,
    pub message: String,
    pub error_type: String,
}

/// The answer has this status and this message.
pub open spec fn reports(r: ErrorReply, status: u16, message: Seq<char>) -> bool {
    r.status == status && r.message@ == message && r.error_type@ == "server_error"@
}

/// Makes an answer that reports an error.
pub fn error_response(status: u16, message: &str) -> (r: ErrorReply)
    ensures
        reports(r, status, message@),
{
    ErrorReply { status, message: message.to_owned(), error_type: "server_error".to_owned() }
}

/// The answer to a request that was not taken.
pub fn service_unavailable(e: WorkerError) -> (r: ErrorReply)
    ensures
        reports(r, 503, e.text()),
{
    error_response(503, &e.message())
}

/// The answer where a model could not be loaded.
pub fn load_failed(reason: &str) -> (r: ErrorReply)
    ensures
        reports(r, 400, "model load failed: "@ + reason@),
{
    error_response(400, &text::joined("model load failed: ", reason))
}

/// The answer where the loading of a model broke off.
pub fn swap_failed(reason: &str) -> (r: ErrorReply)
    ensures
        reports(r, 500, "model swap task failed: "@ + reason@),
{
    error_response(500, &text::joined("model swap task failed: ", reason))
}

/// The same text, or none.
pub open spec fn same_option(a: Option<String>, b: Option<String>) -> bool {
    match (a, b) {
        (Some(x), Some(y)) => x@ == y@,
        (None, None) => true,
        _ => false,
    }
}

/// Copies a text, if there is one.
fn copy_option(a: &Option<String>) -> (r: Option<String>)
    ensures
        same_option(r, *a),
{
    match a {
        Some(s) => Some(s.clone()),
        None => None,
    }
}

/// Where the model of a request is to be loaded from; the request must name a source. The model
/// goes to the CPU.
pub fn swap_options(request: &ModelSwapRequest) -> (r: Result<ModelLoadOptions, ErrorReply>)
    ensures
        match r {
            Ok(o) => {
                &&& request.gguf is Some || request.safetensors is Some || request.config is Some
                &&& same_option(o.gguf, request.gguf)
                &&& same_option(o.safetensors, request.safetensors)
                &&& same_option(o.config_json, request.config_json)
                &&& o.config@ == (match request.config {
                    Some(c) => c@,
                    None => "tiny"@,
                })
                &&& same_option(o.quantize, request.quantize)
                &&& o.device == Device::Cpu
            },
            Err(e) => {
                &&& request.gguf is None && request.safetensors is None && request.config is None
                &&& reports(e, 400, "model swap requires gguf, safetensors, or config"@)
            },
        },
{
    if request.gguf.is_none() && request.safetensors.is_none() && request.config.is_none() {
        return Err(error_response(400, "model swap requires gguf, safetensors, or config"));
    }
    Ok(
        ModelLoadOptions {
            gguf: copy_option(&request.gguf),
            safetensors: copy_option(&request.safetensors),
            config_json: copy_option(&request.config_json),
            config: match &request.config {
                Some(c) => c.clone(),
                None => "tiny".to_owned(),
            },
            quantize: copy_option(&request.quantize),
            device: Device::Cpu,
        },
    )
}

/// The name of a model: the one that was asked for, or its own.
pub fn resolve_name(asked: &Option<String>, own: &str) -> (r: String)
    ensures
        r@ == (match *asked {
            Some(s) => s@,
            None => own@,
        }),
{
    match asked {
        Some(s) => s.clone(),
        None => own.to_owned(),
    }
}

} // verus!
