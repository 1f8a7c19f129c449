//! Answers are what was asked for.
use super::api;
use super::api::{ChatMessage, ErrorReply, Plan, Usage, WsRequest};
use super::cli;
use super::models;
use super::models::Source;
use super::worker::WorkerError;
use crate::runtime::filed;
use crate::runtime::gguf;
use crate::runtime::sampler::SamplingStrategy;
use crate::runtime::worth;
use crate::text;
use crate::tokenizer::bpe;
use crate::tokenizer::bpe::BpeModel;
use vstd::arithmetic::power2;
use vstd::prelude::*;

verus! {

/// A temperature above zero.
pub open spec fn warm(t: u32) -> bool {
    worth::finite(t as int) && worth::worth(t as int) > 0
}

/// Zero is worth nothing.
proof fn zero_is_worth_nothing()
    ensures
        worth::finite(0),
        worth::worth(0) == 0,
{
    assert(0 * worth::spacing(0) == 0);
}

/// A plan is what the request asks for: a temperature above zero is drawn at as it is, one that is
/// not takes the largest score, and a number of candidates is drawn among at the temperature; so
/// many tokens as were asked for, and in pieces just where that was asked for.
pub proof fn plan_is_what_was_asked_for(
    m: BpeModel,
    prompt: Seq<char>,
    max_tokens: Option<usize>,
    temperature: Option<u32>,
    top_k: Option<usize>,
    stream: Option<bool>,
    p: Plan,
)
    requires
        api::plans(m, prompt, max_tokens, temperature, top_k, stream, p),
    ensures
        temperature matches Some(t) ==> warm(t) && top_k is None ==> p.sampler.strategy == (SamplingStrategy::Temperature { temperature: t }),
        temperature matches Some(t) ==> worth::finite(t as int) && worth::worth(t as int) <= 0 && top_k is None ==> p.sampler.strategy is Greedy,
        temperature matches Some(t) ==> (top_k matches Some(k) ==> p.sampler.strategy == (SamplingStrategy::TopK { k, temperature: t })),
        max_tokens matches Some(n) ==> p.max_tokens == n,
        p.stream <==> stream == Some(true),
        m.config.bos_token matches Some(b) ==> p.tokens@ == seq![b] + m.encoded(prompt),
        m.config.bos_token is None ==> p.tokens@ == m.encoded(prompt),
{
    if let Some(t) = temperature {
        if worth::finite(t as int) {
            zero_is_worth_nothing();
            worth::at_most_is_worth_no_more(t, 0);
        }
    }
    assert(Seq::<u32>::empty() + m.encoded(prompt) =~= m.encoded(prompt));
}

/// Where a request does not say, tokens are drawn at the float nearest to 0.7, 256 of them at most,
/// and the answer comes in one piece.
pub proof fn plan_has_its_defaults(m: BpeModel, prompt: Seq<char>, top_k: Option<usize>, p: Plan)
    requires
        api::plans(m, prompt, None, None, top_k, None, p),
    ensures
        ({
            let t = match p.sampler.strategy {
                SamplingStrategy::Temperature { temperature } => temperature,
                SamplingStrategy::TopK { temperature, .. } => temperature,
                _ => 0,
            };
            &&& worth::nearest(t as int, 7, 10)
            &&& top_k is None ==> p.sampler.strategy == (SamplingStrategy::Temperature { temperature: t })
            &&& top_k matches Some(k) ==> p.sampler.strategy == (SamplingStrategy::TopK { k, temperature: t })
        }),
        p.max_tokens == 256,
        !p.stream,
{
    let t = 0x3f33_3333u32;
    reveal(worth::nearest);
    assert(worth::exponent(t as int) == 126 && worth::mantissa(t as int) == 0x33_3333);
    let gap = power2::pow2(125) as int;
    power2::lemma_pow2_pos(125);
    power2::lemma_pow2_adds(24, 125);
    power2::lemma2_to64();
    assert(worth::spacing(t as int) == gap);
    assert(worth::one() == 0x100_0000 * gap);
    assert(worth::worth(t as int) == 0xb3_3333 * gap) by (nonlinear_arith)
        requires
            worth::worth(t as int) == (0x80_0000 + 0x33_3333) * gap,
    ;
    assert(worth::worth(t as int) > 0);
    assert(worth::nearest(t as int, 7, 10));
    zero_is_worth_nothing();
    worth::at_most_is_worth_no_more(t, 0);
}

/// Two requests that differ in their temperatures above zero, and ask for no number of candidates,
/// are drawn for at different temperatures; two that differ in their numbers of candidates are drawn
/// for among different numbers.
pub proof fn different_requests_are_drawn_for_differently(
    m: BpeModel,
    prompt: Seq<char>,
    max_tokens: Option<usize>,
    s: u32,
    t: u32,
    j: usize,
    k: usize,
    stream: Option<bool>,
    a: Plan,
    b: Plan,
    c: Plan,
    d: Plan,
)
    requires
        api::plans(m, prompt, max_tokens, Some(s), None, stream, a),
        api::plans(m, prompt, max_tokens, Some(t), None, stream, b),
        api::plans(m, prompt, max_tokens, Some(t), Some(j), stream, c),
        api::plans(m, prompt, max_tokens, Some(t), Some(k), stream, d),
        warm(s),
        warm(t),
        s != t,
        j != k,
    ensures
        a.sampler.strategy != b.sampler.strategy,
        c.sampler.strategy != d.sampler.strategy,
        b.sampler.strategy != c.sampler.strategy,
        a.tokens@ == b.tokens@,
        a.max_tokens == b.max_tokens,
{
    plan_is_what_was_asked_for(m, prompt, max_tokens, Some(s), None, stream, a);
    plan_is_what_was_asked_for(m, prompt, max_tokens, Some(t), None, stream, b);
}

/// The text of a conversation is that of its messages, one after the other: the role of each, a line
/// break, its content and a line break.
pub proof fn conversation_is_written_message_by_message(a: Seq<ChatMessage>, m: ChatMessage, b: Seq<ChatMessage>)
    ensures
        api::transcript(seq![m]) == m.role@.push('\n') + m.content@.push('\n'),
        api::transcript(a + b) == api::transcript(a) + api::transcript(b),
    decreases b.len(),
{
    reveal_strlit("\n");
    assert("\n"@ =~= seq!['\n']);
    assert(seq![m].drop_last() =~= Seq::<ChatMessage>::empty());
    assert(api::transcript(Seq::<ChatMessage>::empty()) =~= Seq::<char>::empty());
    assert(api::transcript(seq![m]) =~= m.role@.push('\n') + m.content@.push('\n'));
    if b.len() == 0 {
        assert(a + b =~= a);
        assert(api::transcript(a) + api::transcript(b) =~= api::transcript(a));
    } else {
        conversation_is_written_message_by_message(a, m, b.drop_last());
        assert((a + b).drop_last() =~= a + b.drop_last());
        assert((a + b).last() == b.last());
        assert(api::transcript(a + b) =~= api::transcript(a) + api::transcript(b));
    }
}

/// Over a socket a text counts before a conversation, and one of both is needed.
pub proof fn socket_takes_a_text_first(r: WsRequest)
    ensures
        r.prompt matches Some(p) ==> api::ws_prompt(r) == Some(p@),
        r.prompt is None ==> (r.messages matches Some(list) ==> api::ws_prompt(r) == Some(api::transcript(list@))),
        r.prompt is None && r.messages is None ==> api::ws_prompt(r) is None,
{
}

/// What is shown for the tokens of a text is the text.
pub proof fn shown_is_what_was_encoded(m: BpeModel, s: Seq<char>)
    requires
        m.exact(),
        m.covers(s),
    ensures
        api::shown(m, m.encoded(s)) == s,
{
    let r = match m.spelled(m.encoded(s)) {
        Ok(bytes) => Ok::<Seq<char>, Seq<char>>(text::read_as(bytes)),
        Err(t) => Err::<Seq<char>, Seq<char>>("token_id="@ + text::decimal(t as nat)),
    };
    m.decode_undoes_encode(s, r);
}

/// What is shown for tokens is read from their bytes; nothing is shown where one of them is unknown.
pub proof fn shown_is_read_from_the_bytes(m: BpeModel, tokens: Seq<u32>)
    ensures
        m.spelled(tokens) is Err ==> api::shown(m, tokens).len() == 0,
        m.spelled(tokens) matches Ok(b) ==> vstd::utf8::valid_utf8(b) ==> vstd::utf8::encode_utf8(api::shown(m, tokens)) == b,
{
    if let Ok(b) = m.spelled(tokens) {
        if vstd::utf8::valid_utf8(b) {
            vstd::utf8::decode_utf8_encode_utf8(b);
        }
    }
}

/// Tokens are counted as they go in and come out, and both together.
pub proof fn usage_counts_both_ways(u: Usage, prompt: int, completion: int)
    requires
        api::usage_is(u, prompt, completion),
    ensures
        u.prompt_tokens == prompt,
        u.completion_tokens == completion,
        u.total_tokens - u.prompt_tokens == u.completion_tokens,
{
}

/// An error is reported with its own status and message, as one of the server.
pub proof fn errors_are_reported_as_they_are(r: ErrorReply, status: u16, message: Seq<char>)
    requires
        api::reports(r, status, message),
    ensures
        r.status == status,
        r.message@ == message,
        r.error_type@ == "server_error"@,
{
}

/// A full queue says how many requests it holds.
pub proof fn full_queue_says_how_full(n: usize)
    ensures
        WorkerError::QueueFull(n).text() == "inference queue is full (max "@ + text::decimal(n as nat) + " pending)"@,
        text::digits_value(text::decimal(n as nat)) == n,
{
    text::decimal_value(n as nat);
}

/// What a model is called where it comes from tells the kind of its source and its place.
pub proof fn sources_are_told_apart(a: Source)
    ensures
        a matches Source::Gguf(p) ==> a.text() == "gguf:"@ + p@,
        a matches Source::Safetensors(p) ==> a.text() == "safetensors:"@ + p@,
        a matches Source::Builtin(p) ==> a.text() == "config:"@ + p@,
{
}

/// The text under a key is the first with that key, if there is one.
pub proof fn first_text_under_a_key_counts(list: Seq<(Seq<char>, Seq<char>)>, key: Seq<char>, i: int)
    requires
        0 <= i < list.len(),
        list[i].0 == key,
        forall|j: int| 0 <= j < i ==> (#[trigger] list[j]).0 != key,
    ensures
        models::text_under(list, key) == Some(list[i].1),
        key == "model_name"@ ==> models::safetensors_name(list) == list[i].1,
    decreases list.len(),
{
    if i > 0 {
        assert(list[0].0 != key);
        let rest = list.drop_first();
        assert forall|j: int| 0 <= j < i - 1 implies (#[trigger] rest[j]).0 != key by {
            assert(rest[j] == list[j + 1]);
        }
        first_text_under_a_key_counts(rest, key, i - 1);
    }
}

/// A model is called what its GGUF file last says under `general.name`, if that is a text.
pub proof fn models_have_their_names(entries: Seq<(Seq<char>, gguf::MetaModel)>, i: int, s: Seq<char>)
    requires
        -1 <= i < entries.len(),
        i >= 0 ==> entries[i].0 == "general.name"@,
        forall|j: int| i < j < entries.len() ==> (#[trigger] entries[j]).0 != "general.name"@,
    ensures
        i >= 0 && entries[i].1 == gguf::MetaModel::Text(s) ==> models::gguf_name(entries) == s,
        i == -1 ==> models::gguf_name(entries) == "bitllm-model"@,
        models::safetensors_name(Seq::empty()) == "bitllm-model"@,
{
    filed::last_value_counts(entries, "general.name"@, i);
}

/// Where no tokenizer is named, a character below 256 is the token with its number.
pub proof fn characters_are_their_numbers(c: char)
    requires
        (c as int) < 256,
    ensures
        bpe::vocab_from(cli::first_chars(256)).contains_key(seq![c]),
        bpe::vocab_from(cli::first_chars(256))[seq![c]] == c as u32,
        cli::first_chars(256).len() == 256,
{
    let k = c as int;
    vstd::utf8::char_u32_cast(c, c as u32);
    vstd::utf8::char_u32_cast(cli::nth(k), c as u32);
    assert(cli::first_chars(256)[k] == (seq![c], k as u32));
    character_in_the_first(256, k, c);
}

proof fn character_in_the_first(n: int, k: int, c: char)
    requires
        0 <= k < n <= 256,
        c as int == k,
        cli::nth(k) == c,
    ensures
        bpe::vocab_from(cli::first_chars(n)).contains_key(seq![c]),
        bpe::vocab_from(cli::first_chars(n))[seq![c]] == k,
    decreases n,
{
    let list = cli::first_chars(n);
    assert(list.drop_last() =~= cli::first_chars(n - 1));
    assert(list.last() == (seq![cli::nth(n - 1)], (n - 1) as u32));
    if k < n - 1 {
        character_in_the_first(n - 1, k, c);
        assert(cli::nth(n - 1) as int == n - 1);
        assert(seq![cli::nth(n - 1)][0] != seq![c][0]);
    }
}

} // verus!
