//! The command line.
use crate::tensor::types::Device;
use crate::tokenizer::bpe;
use crate::tokenizer::bpe::BpeTokenizer;
use vstd::prelude::*;

verus! {

/// The command line.
#[derive(Debug)]
pub struct Cli {
    pub command: Commands,
}

/// What is to be done.
#[derive(Debug)]
pub enum Commands {
    Serve {
        host: String,
        port: u16,
        model_name: Option<String>,
        tokenizer: Option<String>,
        config: String,
        gguf: Option<String>,
        safetensors: Option<String>,
        config_json: Option<String>,
        quantize: Option<String>,
        gpu: i32,
        queue_depth: usize,
    },
    Bench { model: String, iterations: usize },
}

/// The device to use: the GPU that was asked for where there is one, the CPU otherwise. A negative
/// number asks for none.
pub fn choose_device(gpu: i32, available: bool) -> (r: Device)
    ensures
        r == (if gpu >= 0 && available {
            Device::Gpu { device_id: gpu }
        } else {
            Device::Cpu
        }),
{
    if gpu >= 0 && available {
        Device::Gpu { device_id: gpu }
    } else {
        Device::Cpu
    }
}

/// The character of a number below 256.
pub open spec fn nth(i: int) -> char {
    i as u8 as char
}

/// The first so many characters, each with its number for an id.
pub open spec fn first_chars(n: int) -> Seq<(Seq<char>, u32)> {
    Seq::new(n as nat, |i: int| (seq![nth(i)], i as u32))
}

/// The tokenizer that is used where none is named: the first 256 characters are its tokens, and
/// their numbers their ids.
pub fn create_byte_tokenizer() -> (r: BpeTokenizer)
    ensures
        r.wf(),
        r@.vocab == bpe::vocab_from(first_chars(256)),
        r@.merges == Seq::<(Seq<char>, Seq<char>)>::empty(),
        r@.config == (bpe::TokenizerConfig {
            vocab_size: r@.vocab.len() as usize,
            bos_token: None,
            eos_token: None,
            unk_token: None,
            byte_level: false,
            digits_individual: false,
        }),
{
    let mut vocab: Vec<(String, u32)> = Vec::new();
    let mut i: u32 = 0;
    assert(bpe::listed(vocab@) =~= first_chars(0));
    while i < 256
        invariant
            i <= 256,
            bpe::listed(vocab@) == first_chars(i as int),
        decreases 256 - i,
    {
        let ghost held = bpe::listed(vocab@);
        let mut one: String = String::new();
        one.push((i as u8) as char);
        assert(one@ =~= seq![nth(i as int)]);
        vocab.push((one, i));
        assert(bpe::listed(vocab@) =~= held.push((one@, i)));
        assert(first_chars(i + 1) =~= held.push((seq![nth(i as int)], i)));
        i = i + 1;
    }
    let none: Vec<(String, String)> = Vec::new();
    assert(crate::tokenizer::merges::pair_texts(none@) =~= Seq::<(Seq<char>, Seq<char>)>::empty());
    BpeTokenizer::from_vocab_and_merges(vocab, none)
}

/// The tokens are the first characters, and the id of each is its number.
proof fn token_is_char(n: int, t: Seq<char>)
    requires
        0 <= n <= 256,
        bpe::vocab_from(first_chars(n)).contains_key(t),
    ensures
        exists|i: int| 0 <= i < n && t == seq![#[trigger] nth(i)] && bpe::vocab_from(first_chars(n))[t] == i,
    decreases n,
{
    assert(n > 0);
    assert(first_chars(n).drop_last() =~= first_chars(n - 1));
    assert(first_chars(n).last() == (seq![nth(n - 1)], (n - 1) as u32));
    if t == seq![nth(n - 1)] {
        assert(bpe::vocab_from(first_chars(n))[t] == n - 1);
    } else {
        token_is_char(n - 1, t);
        let i = choose|i: int|
            0 <= i < n - 1 && t == seq![#[trigger] nth(i)] && bpe::vocab_from(first_chars(n - 1))[t] == i;
        assert(t == seq![nth(i)]);
    }
}

/// Each of the first characters is a token.
proof fn char_is_token(n: int, i: int)
    requires
        0 <= i < n <= 256,
    ensures
        bpe::vocab_from(first_chars(n)).contains_key(seq![nth(i)]),
    decreases n,
{
    assert(first_chars(n).drop_last() =~= first_chars(n - 1));
    assert(first_chars(n).last() == (seq![nth(n - 1)], (n - 1) as u32));
    if i < n - 1 {
        char_is_token(n - 1, i);
    }
}

/// A character with a small number is the one of that number.
proof fn char_of_number(c: char)
    requires
        (c as int) < 256,
    ensures
        nth(c as int) == c,
{
    vstd::utf8::char_u32_cast(c, c as u32);
    vstd::utf8::char_u32_cast(nth(c as int), c as u32);
}

/// A text of the first 256 characters survives the tokenizer that is used where none is named.
pub proof fn byte_tokenizer_round_trip(m: bpe::BpeModel, s: Seq<char>, r: Result<Seq<char>, Seq<char>>)
    requires
        m.vocab == bpe::vocab_from(first_chars(256)),
        bpe::consistent(m.vocab, m.pieces),
        m.config.bos_token is None,
        m.config.eos_token is None,
        !m.config.byte_level,
        forall|i: int| 0 <= i < s.len() ==> (#[trigger] s[i] as int) < 256,
        m.decodes(m.encoded(s), r),
    ensures
        r == Ok::<Seq<char>, Seq<char>>(s),
{
    assert forall|a: Seq<char>, b: Seq<char>|
        #[trigger] m.vocab.contains_key(a) && #[trigger] m.vocab.contains_key(b) && m.vocab[a] == m.vocab[b] implies a == b by {
        token_is_char(256, a);
        token_is_char(256, b);
    }
    assert forall|t: Seq<char>| #[trigger] m.vocab.contains_key(t) implies m.vocab[t] != m.skipped() && m.vocab[t] != m.ending() by {
        token_is_char(256, t);
    }
    assert forall|i: int| 0 <= i < s.len() implies m.vocab.contains_key(seq![#[trigger] s[i]]) by {
        char_of_number(s[i]);
        char_is_token(256, s[i] as int);
    }
    m.decode_undoes_encode(s, r);
}

} // verus!
