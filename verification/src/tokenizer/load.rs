//! Tokenizers out of JSON files.
use super::bpe;
use super::bpe::{BpeTokenizer, TokenizerConfig, TokenizerError};
use super::merges;
use crate::json;
use crate::json::{Json, JsonModel};
use crate::text;
use vstd::prelude::*;

verus! {

/// A value under a key is a smaller value.
pub proof fn field_is_smaller(v: JsonModel, key: Seq<char>)
    ensures
        v.field(key) matches Some(f) ==> decreases_to!(v => f),
{
    match v {
        JsonModel::Object(entries) => {
            entry_is_listed(entries, key);
            if json::first_entry(entries, key) is Some {
                let i = choose|i: int|
                    0 <= i < entries.len() && #[trigger] entries[i].1 == json::first_entry(entries, key).unwrap();
                assert(decreases_to!(v => v->Object_0));
                assert(decreases_to!(entries => entries[i]));
                assert(decreases_to!(entries[i] => entries[i].1));
            }
        },
        _ => {},
    }
}

proof fn entry_is_listed(entries: Seq<(Seq<char>, JsonModel)>, key: Seq<char>)
    ensures
        json::first_entry(entries, key) matches Some(f) ==> exists|i: int| 0 <= i < entries.len() && #[trigger] entries[i].1 == f,
    decreases entries.len(),
{
    if entries.len() > 0 {
        if entries[0].0 == key {
            assert(entries[0].1 == json::first_entry(entries, key).unwrap());
        } else {
            let rest = entries.drop_first();
            entry_is_listed(rest, key);
            if json::first_entry(rest, key) is Some {
                let i = choose|i: int| 0 <= i < rest.len() && #[trigger] rest[i].1 == json::first_entry(rest, key).unwrap();
                assert(entries[i + 1].1 == rest[i].1);
            }
        }
    }
}

/// Whether a pre-tokenizer works byte by byte and whether it takes digits one by one, on its own
/// or in one of those that it is made of.
pub open spec fn flags_of(v: JsonModel) -> (bool, bool)
    decreases v, 1nat,
{
    let own = own_flags(v);
    match v.field("pretokenizers"@) {
        Some(JsonModel::List(list)) => {
            proof {
                field_is_smaller(v, "pretokenizers"@);
                assert(decreases_to!(v.field("pretokenizers"@).unwrap() => v.field("pretokenizers"@).unwrap()->List_0));
            }
            let below = list_flags(list);
            (own.0 || below.0, own.1 || below.1)
        },
        _ => own,
    }
}

/// The flags of a list of pre-tokenizers.
pub open spec fn list_flags(list: Seq<JsonModel>) -> (bool, bool)
    decreases list, 0nat,
{
    if list.len() == 0 {
        (false, false)
    } else {
        let head = list_flags(list.drop_last());
        let last = flags_of(list.last());
        (head.0 || last.0, head.1 || last.1)
    }
}

/// What the kind of a pre-tokenizer says.
pub open spec fn own_flags(v: JsonModel) -> (bool, bool) {
    let kind = v.text_at("type"@);
    (kind == Some("ByteLevel"@), kind == Some("Digits"@) && v.truth_at("individual_digits"@) == Some(true))
}

/// The flags of a tokenizer file.
pub open spec fn pretokenizer_flags(v: JsonModel) -> (bool, bool) {
    match v.field("pre_tokenizer"@) {
        Some(node) => flags_of(node),
        None => (false, false),
    }
}

/// The tokens that an object lists, or the first whose id is too large.
pub open spec fn tokens_in(list: Seq<(Seq<char>, JsonModel)>) -> Result<Seq<(Seq<char>, u32)>, (u64, Seq<char>)>
    decreases list.len(),
{
    if list.len() == 0 {
        Ok(Seq::empty())
    } else {
        match tokens_in(list.drop_last()) {
            Err(e) => Err(e),
            Ok(v) => match list.last().1.natural() {
                Some(id) => if id > u32::MAX {
                    Err((id, list.last().0))
                } else {
                    Ok(v.push((list.last().0, id as u32)))
                },
                None => Ok(v),
            },
        }
    }
}

/// The place of the first space at or after a place, or the end.
pub open spec fn space_from(s: Seq<char>, i: int) -> int
    decreases s.len() - i,
{
    if 0 <= i < s.len() && s[i] != ' ' {
        space_from(s, i + 1)
    } else {
        i
    }
}

/// The two parts of a merge: what is before the first space, and what is after it.
pub open spec fn merge_parts(s: Seq<char>) -> Option<(Seq<char>, Seq<char>)> {
    let i = space_from(s, 0);
    if i < s.len() {
        Some((s.take(i), s.skip(i + 1)))
    } else {
        None
    }
}

/// The merges that a list holds; what is no merge is passed over.
pub open spec fn merges_in(list: Seq<JsonModel>) -> Seq<(Seq<char>, Seq<char>)>
    decreases list.len(),
{
    if list.len() == 0 {
        Seq::empty()
    } else {
        let head = merges_in(list.drop_last());
        match list.last().text() {
            Some(s) => match merge_parts(s) {
                Some(p) => head.push(p),
                None => head,
            },
            None => head,
        }
    }
}

/// The marks for start and end among added tokens; the last ones count.
pub open spec fn marks_in(list: Seq<JsonModel>) -> (Option<u32>, Option<u32>)
    decreases list.len(),
{
    if list.len() == 0 {
        (None, None)
    } else {
        let head = marks_in(list.drop_last());
        let t = list.last();
        let content = match t.text_at("content"@) {
            Some(s) => s,
            None => ""@,
        };
        let id = match t.natural_at("id"@) {
            Some(n) => n as u32,
            None => 0,
        };
        if t.truth_at("special"@) != Some(true) {
            head
        } else if content == "<s>"@ || content == "[BOS]"@ {
            (Some(id), head.1)
        } else if content == "</s>"@ || content == "[EOS]"@ {
            (head.0, Some(id))
        } else {
            head
        }
    }
}

/// The tokens and the merges of a tokenizer file, or why it cannot be used.
pub open spec fn parts_of(v: JsonModel) -> Result<(Seq<(Seq<char>, u32)>, Seq<(Seq<char>, Seq<char>)>), Seq<char>> {
    match v.field("model"@) {
        None => Err("missing 'model' field"@),
        Some(model) => if model.text_at("type"@) is Some && model.text_at("type"@) != Some("BPE"@) {
            Err("unsupported model type: "@ + model.text_at("type"@).unwrap())
        } else {
            match model.field("vocab"@) {
                None => Err("missing 'model.vocab'"@),
                Some(JsonModel::Object(list)) => match tokens_in(list) {
                    Err((id, token)) => Err(
                        "token id "@ + text::decimal(id as nat) + " exceeds u32 range for token '"@ + token + "'"@,
                    ),
                    Ok(tokens) => match model.field("merges"@) {
                        None => Err("missing 'model.merges'"@),
                        Some(JsonModel::List(list)) => Ok((tokens, merges_in(list))),
                        Some(_) => Ok((tokens, Seq::empty())),
                    },
                },
                Some(_) => Err("model.vocab must be an object"@),
            }
        },
    }
}

/// The marks of a tokenizer file.
pub open spec fn marks_of(v: JsonModel) -> (Option<u32>, Option<u32>) {
    match v.field("added_tokens"@) {
        Some(JsonModel::List(list)) => marks_in(list),
        _ => (None, None),
    }
}

/// The tokenizer that a file describes.
pub open spec fn describes(v: JsonModel, t: BpeTokenizer) -> bool {
    &&& t.wf()
    &&& parts_of(v) matches Ok((tokens, list)) && t@.vocab == bpe::vocab_from(tokens) && t@.merges == list
    &&& t@.config.vocab_size == t@.vocab.len()
    &&& t@.config.bos_token == marks_of(v).0
    &&& t@.config.eos_token == marks_of(v).1
    &&& t@.config.unk_token == (if t@.vocab.contains_key("<unk>"@) {
        Some(t@.vocab["<unk>"@])
    } else {
        None
    })
    &&& t@.config.byte_level == pretokenizer_flags(v).0
    &&& t@.config.digits_individual == pretokenizer_flags(v).1
}

/// Finds the flags of a pre-tokenizer.
fn find_flags(node: &Json) -> (r: (bool, bool))
    ensures
        r == flags_of(node@),
    decreases node@,
{
    let mut byte_level: bool = false;
    let mut digits: bool = false;
    if let Some(kind) = node.str_at("type") {
        if text::same(kind, "ByteLevel") {
            byte_level = true;
        } else if text::same(kind, "Digits") {
            digits = match node.bool_at("individual_digits") {
                Some(b) => b,
                None => false,
            };
        }
    }
    proof {
        reveal_strlit("ByteLevel");
        reveal_strlit("Digits");
        assert("ByteLevel"@.len() != "Digits"@.len());
        assert((byte_level, digits) == own_flags(node@));
        field_is_smaller(node@, "pretokenizers"@);
    }
    if let Some(subs) = node.get("pretokenizers") {
        if let Some(list) = subs.as_array() {
            let ghost model = subs@.list().unwrap();
            let ghost whole = node@;
            assert(subs@ == JsonModel::List(model));
            let n: usize = list.len();
            let ghost own = (byte_level, digits);
            let mut i: usize = 0;
            assert(model.take(0) =~= Seq::<JsonModel>::empty());
            while i < n
                invariant
                    n == list@.len(),
                    n == model.len(),
                    forall|j: int| 0 <= j < n ==> #[trigger] list@[j]@ == model[j],
                    whole == node@,
                    decreases_to!(node@ => subs@),
                    subs@ == JsonModel::List(model),
                    i <= n,
                    (byte_level, digits) == (own.0 || list_flags(model.take(i as int)).0, own.1 || list_flags(model.take(i as int)).1),
                decreases n - i,
            {
                proof {
                    assert(list@[i as int]@ == model[i as int]);
                    assert(decreases_to!(subs@ => subs@->List_0));
                    assert(decreases_to!(model => model[i as int]));
                    assert(model.take(i + 1).drop_last() =~= model.take(i as int));
                    assert(model.take(i + 1).last() == model[i as int]);
                }
                let below: (bool, bool) = find_flags(&list[i]);
                byte_level = byte_level || below.0;
                digits = digits || below.1;
                i = i + 1;
            }
            assert(model.take(n as int) =~= model);
        }
    }
    (byte_level, digits)
}

/// Reads the tokens that an object lists.
fn read_tokens(list: &Vec<(String, Json)>, Ghost(model): Ghost<Seq<(Seq<char>, JsonModel)>>) -> (r: Result<
    Vec<(String, u32)>,
    (u64, String),
>)
    requires
        list@.len() == model.len(),
        forall|i: int| 0 <= i < list@.len() ==> model[i] == (#[trigger] list@[i].0@, list@[i].1@),
    ensures
        match r {
            Ok(v) => tokens_in(model) == Ok::<Seq<(Seq<char>, u32)>, (u64, Seq<char>)>(bpe::listed(v@)),
            Err((id, token)) => tokens_in(model) == Err::<Seq<(Seq<char>, u32)>, (u64, Seq<char>)>((id, token@)),
        },
{
    let n: usize = list.len();
    let mut out: Vec<(String, u32)> = Vec::new();
    let mut i: usize = 0;
    assert(model.take(0) =~= Seq::<(Seq<char>, JsonModel)>::empty());
    assert(bpe::listed(out@) =~= Seq::<(Seq<char>, u32)>::empty());
    while i < n
        invariant
            n == list@.len(),
            n == model.len(),
            forall|j: int| 0 <= j < n ==> model[j] == (#[trigger] list@[j].0@, list@[j].1@),
            i <= n,
            tokens_in(model.take(i as int)) == Ok::<Seq<(Seq<char>, u32)>, (u64, Seq<char>)>(bpe::listed(out@)),
        decreases n - i,
    {
        let ghost held = bpe::listed(out@);
        proof {
            assert(model.take(i + 1).drop_last() =~= model.take(i as int));
            assert(model[i as int] == (list@[i as int].0@, list@[i as int].1@));
        }
        if let Some(id) = list[i].1.as_u64() {
            if id > u32::MAX as u64 {
                proof {
                    bad_token_stays(model, i + 1);
                }
                return Err((id, list[i].0.clone()));
            }
            out.push((list[i].0.clone(), id as u32));
            assert(bpe::listed(out@) =~= held.push((list@[i as int].0@, id as u32)));
        }
        i = i + 1;
    }
    assert(model.take(n as int) =~= model);
    Ok(out)
}

/// What is wrong with the first tokens is wrong with all.
proof fn bad_token_stays(list: Seq<(Seq<char>, JsonModel)>, n: int)
    requires
        0 <= n <= list.len(),
        tokens_in(list.take(n)) is Err,
    ensures
        tokens_in(list) == tokens_in(list.take(n)),
    decreases list.len() - n,
{
    if n < list.len() {
        assert(list.take(n + 1).drop_last() =~= list.take(n));
        bad_token_stays(list, n + 1);
    } else {
        assert(list.take(n) =~= list);
    }
}

/// Cuts a merge in two.
fn cut_merge(s: &str) -> (r: Option<(String, String)>)
    ensures
        match r {
            Some(p) => merge_parts(s@) == Some((p.0@, p.1@)),
            None => merge_parts(s@) is None,
        },
{
    let chars: Vec<char> = text::chars_of(s);
    let n: usize = chars.len();
    let mut i: usize = 0;
    while i < n && chars[i] != ' '
        invariant
            n == chars@.len(),
            chars@ == s@,
            i <= n,
            space_from(s@, 0) == space_from(s@, i as int),
        decreases n - i,
    {
        i = i + 1;
    }
    if i >= n {
        return None;
    }
    let left: &[char] = vstd::slice::slice_subrange(chars.as_slice(), 0, i);
    let right: &[char] = vstd::slice::slice_subrange(chars.as_slice(), i + 1, n);
    assert(left@ =~= s@.take(i as int));
    assert(right@ =~= s@.skip(i + 1));
    Some((text::text_of(left), text::text_of(right)))
}

/// Reads merges.
fn read_merges(list: &Vec<Json>, Ghost(model): Ghost<Seq<JsonModel>>) -> (r: Vec<(String, String)>)
    requires
        list@.len() == model.len(),
        forall|i: int| 0 <= i < list@.len() ==> #[trigger] list@[i]@ == model[i],
    ensures
        merges::pair_texts(r@) == merges_in(model),
{
    let n: usize = list.len();
    let mut out: Vec<(String, String)> = Vec::new();
    let mut i: usize = 0;
    assert(model.take(0) =~= Seq::<JsonModel>::empty());
    assert(merges::pair_texts(out@) =~= Seq::<(Seq<char>, Seq<char>)>::empty());
    while i < n
        invariant
            n == list@.len(),
            n == model.len(),
            forall|j: int| 0 <= j < n ==> #[trigger] list@[j]@ == model[j],
            i <= n,
            merges::pair_texts(out@) == merges_in(model.take(i as int)),
        decreases n - i,
    {
        let ghost held = merges::pair_texts(out@);
        proof {
            assert(model.take(i + 1).drop_last() =~= model.take(i as int));
            assert(list@[i as int]@ == model[i as int]);
        }
        if let Some(s) = list[i].as_str() {
            if let Some(p) = cut_merge(s) {
                let ghost one = (p.0@, p.1@);
                out.push(p);
                assert(merges::pair_texts(out@) =~= held.push(one));
            }
        }
        i = i + 1;
    }
    assert(model.take(n as int) =~= model);
    out
}

/// Reads the marks among added tokens.
fn read_marks(list: &Vec<Json>, Ghost(model): Ghost<Seq<JsonModel>>) -> (r: (Option<u32>, Option<u32>))
    requires
        list@.len() == model.len(),
        forall|i: int| 0 <= i < list@.len() ==> #[trigger] list@[i]@ == model[i],
    ensures
        r == marks_in(model),
{
    let n: usize = list.len();
    let mut bos: Option<u32> = None;
    let mut eos: Option<u32> = None;
    let mut i: usize = 0;
    assert(model.take(0) =~= Seq::<JsonModel>::empty());
    while i < n
        invariant
            n == list@.len(),
            n == model.len(),
            forall|j: int| 0 <= j < n ==> #[trigger] list@[j]@ == model[j],
            i <= n,
            (bos, eos) == marks_in(model.take(i as int)),
        decreases n - i,
    {
        proof {
            assert(model.take(i + 1).drop_last() =~= model.take(i as int));
            assert(list@[i as int]@ == model[i as int]);
        }
        let content: &str = match list[i].str_at("content") {
            Some(s) => s,
            None => "",
        };
        let id: u32 = match list[i].u64_at("id") {
            Some(v) => v as u32,
            None => 0,
        };
        let special: bool = match list[i].bool_at("special") {
            Some(b) => b,
            None => false,
        };
        if special {
            if text::same(content, "<s>") || text::same(content, "[BOS]") {
                bos = Some(id);
            } else if text::same(content, "</s>") || text::same(content, "[EOS]") {
                eos = Some(id);
            }
        }
        i = i + 1;
    }
    assert(model.take(n as int) =~= model);
    (bos, eos)
}

impl BpeTokenizer {
    /// Makes the tokenizer that a parsed file describes.
    pub fn from_value(value: &Json) -> (r: Result<BpeTokenizer, TokenizerError>)
        ensures
            match r {
                Ok(t) => describes(value@, t),
                Err(e) => e matches TokenizerError::LoadError(m) && parts_of(value@) matches Err(f) && m@ == f,
            },
    {
        let model: &Json = match value.get("model") {
            Some(m) => m,
            None => {
                return Err(TokenizerError::LoadError("missing 'model' field".to_owned()));
            },
        };
        if let Some(kind) = model.str_at("type") {
            if !text::same(kind, "BPE") {
                return Err(TokenizerError::LoadError(text::joined("unsupported model type: ", kind)));
            }
        }
        let vocab: &Json = match model.get("vocab") {
            Some(v) => v,
            None => {
                return Err(TokenizerError::LoadError("missing 'model.vocab'".to_owned()));
            },
        };
        let entries: &Vec<(String, Json)> = match vocab.as_object() {
            Some(list) => list,
            None => {
                return Err(TokenizerError::LoadError("model.vocab must be an object".to_owned()));
            },
        };
        let tokens: Vec<(String, u32)> = match read_tokens(entries, Ghost(vocab@.entries().unwrap())) {
            Ok(v) => v,
            Err((id, token)) => {
                let a: String = text::joined("token id ", &text::decimal_text(id));
                let b: String = text::joined(&a, " exceeds u32 range for token '");
                let c: String = text::joined(&b, &token);
                return Err(TokenizerError::LoadError(text::joined(&c, "'")));
            },
        };
        let merges: Vec<(String, String)> = match model.get("merges") {
            Some(v) => match v.as_array() {
                Some(list) => read_merges(list, Ghost(v@.list().unwrap())),
                None => Vec::new(),
            },
            None => {
                return Err(TokenizerError::LoadError("missing 'model.merges'".to_owned()));
            },
        };
        assert(merges::pair_texts(merges@) =~= parts_of(value@)->Ok_0.1);
        let marks: (Option<u32>, Option<u32>) = match value.get("added_tokens") {
            Some(v) => match v.as_array() {
                Some(list) => read_marks(list, Ghost(v@.list().unwrap())),
                None => (None, None),
            },
            None => (None, None),
        };
        let flags: (bool, bool) = match value.get("pre_tokenizer") {
            Some(node) => find_flags(node),
            None => (false, false),
        };
        let unk_token: Option<u32> = bpe::id_of(&tokens, "<unk>");
        let config: TokenizerConfig = TokenizerConfig {
            vocab_size: 0,
            bos_token: marks.0,
            eos_token: marks.1,
            unk_token,
            byte_level: flags.0,
            digits_individual: flags.1,
        };
        Ok(BpeTokenizer::from_vocab_and_merges_with_config(tokens, merges, config))
    }

    /// Makes the tokenizer that a JSON text describes.
    pub fn from_json(text: &str) -> (r: Result<BpeTokenizer, TokenizerError>)
        ensures
            match json::text_tree(text@) {
                Err(m) => r matches Err(TokenizerError::JsonError(e)) && e@ == m,
                Ok(v) => match r {
                    Ok(t) => describes(v, t),
                    Err(e) => e matches TokenizerError::LoadError(m) && parts_of(v) matches Err(f) && m@ == f,
                },
            },
    {
        match json::parse(text) {
            Ok(value) => BpeTokenizer::from_value(&value),
            Err(m) => Err(TokenizerError::JsonError(m)),
        }
    }
}

} // verus!
