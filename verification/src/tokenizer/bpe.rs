//! Byte-pair encoding.
use super::bytelevel;
use super::merges;
use super::merges::MergeTable;
use super::pretokens;
use crate::text;
use std::collections::HashMap;
use vstd::hash_map::StringHashMap;
use vstd::prelude::*;
use vstd::utf8;

verus! {

broadcast use vstd::std_specs::hash::group_hash_axioms;

/// Why a tokenizer could not be made or used.
#[derive(Debug)]
pub enum TokenizerError {
    UnknownToken(String),
    InvalidVocabulary(String),
    EncodingError(String),
    JsonError(String),
    LoadError(String),
    ProtobufError(String),
}

impl TokenizerError {
    /// The error's full text.
    pub open spec fn text(self) -> Seq<char> {
        match self {
            TokenizerError::UnknownToken(m) => "Unknown token: "@ + m@,
            TokenizerError::InvalidVocabulary(m) => "Invalid vocabulary: "@ + m@,
            TokenizerError::EncodingError(m) => "Encoding error: "@ + m@,
            TokenizerError::JsonError(m) => "JSON error: "@ + m@,
            TokenizerError::LoadError(m) => "Load error: "@ + m@,
            TokenizerError::ProtobufError(m) => "Protobuf error: "@ + m@,
        }
    }

    /// The error's full text.
    pub fn message(&self) -> (r: String)
        ensures
            r@ == self.text(),
    {
        match self {
            TokenizerError::UnknownToken(m) => text::joined("Unknown token: ", m),
            TokenizerError::InvalidVocabulary(m) => text::joined("Invalid vocabulary: ", m),
            TokenizerError::EncodingError(m) => text::joined("Encoding error: ", m),
            TokenizerError::JsonError(m) => text::joined("JSON error: ", m),
            TokenizerError::LoadError(m) => text::joined("Load error: ", m),
            TokenizerError::ProtobufError(m) => text::joined("Protobuf error: ", m),
        }
    }
}

/// How a tokenizer works.
#[derive(Debug, Clone, Copy)]
pub struct TokenizerConfig {
    pub vocab_size: usize,
    pub bos_token: Option<u32>,
    pub eos_token: Option<u32>,
    pub unk_token: Option<u32>,
    /// Whether texts are written byte by byte before they are merged.
    pub byte_level: bool,
    /// Whether digits are taken one by one.
    pub digits_individual: bool,
}

impl Default for TokenizerConfig {
    fn default() -> (r: Self)
        ensures
            r == (TokenizerConfig {
                vocab_size: 0,
                bos_token: None,
                eos_token: None,
                unk_token: None,
                byte_level: false,
                digits_individual: false,
            }),
    {
        TokenizerConfig {
            vocab_size: 0,
            bos_token: None,
            eos_token: None,
            unk_token: None,
            byte_level: false,
            digits_individual: false,
        }
    }
}

/// What a tokenizer knows.
#[verifier::ext_equal]
pub struct BpeModel {
    /// The ids of the tokens.
    pub vocab: Map<Seq<char>, u32>,
    /// A token for every id.
    pub pieces: Map<u32, Seq<char>>,
    pub merges: Seq<(Seq<char>, Seq<char>)>,
    pub config: TokenizerConfig,
}

/// The ids of listed tokens; a later one replaces an earlier one.
pub open spec fn vocab_from(pairs: Seq<(Seq<char>, u32)>) -> Map<Seq<char>, u32>
    decreases pairs.len(),
{
    if pairs.len() == 0 {
        Map::empty()
    } else {
        vocab_from(pairs.drop_last()).insert(pairs.last().0, pairs.last().1)
    }
}

/// Listed tokens.
pub open spec fn listed(v: Seq<(String, u32)>) -> Seq<(Seq<char>, u32)> {
    Seq::new(v.len(), |i: int| (v[i].0@, v[i].1))
}

/// The ids that are used have a token, and it has that id.
pub open spec fn consistent(vocab: Map<Seq<char>, u32>, pieces: Map<u32, Seq<char>>) -> bool {
    &&& forall|id: u32| #[trigger] pieces.contains_key(id) ==> vocab.contains_key(pieces[id]) && vocab[pieces[id]] == id
    &&& forall|t: Seq<char>| #[trigger] vocab.contains_key(t) ==> pieces.contains_key(vocab[t])
}

/// A token that is in the vocabulary was listed.
proof fn vocab_is_listed(pairs: Seq<(Seq<char>, u32)>, t: Seq<char>)
    requires
        vocab_from(pairs).contains_key(t),
    ensures
        exists|i: int| 0 <= i < pairs.len() && #[trigger] pairs[i].0 == t,
    decreases pairs.len(),
{
    if pairs.last().0 == t {
        assert(pairs[pairs.len() - 1].0 == t);
    } else {
        vocab_is_listed(pairs.drop_last(), t);
        let i = choose|i: int| 0 <= i < pairs.drop_last().len() && #[trigger] pairs.drop_last()[i].0 == t;
        assert(pairs[i].0 == t);
    }
}

/// A token that was listed is in the vocabulary.
proof fn listed_is_vocab(pairs: Seq<(Seq<char>, u32)>, i: int)
    requires
        0 <= i < pairs.len(),
    ensures
        vocab_from(pairs).contains_key(pairs[i].0),
    decreases pairs.len(),
{
    if i < pairs.len() - 1 {
        listed_is_vocab(pairs.drop_last(), i);
    }
}

impl BpeModel {
    /// The words of a text.
    pub open spec fn words(self, s: Seq<char>) -> Seq<Seq<char>> {
        if self.config.byte_level {
            bytelevel::written(bytelevel::chunks_from(s, 0, self.config.digits_individual))
        } else {
            pretokens::words_of(s)
        }
    }

    /// The id of a character: its own, or that of the unknown token.
    pub open spec fn char_ids(self, c: char) -> Seq<u32> {
        if self.vocab.contains_key(seq![c]) {
            seq![self.vocab[seq![c]]]
        } else {
            match self.config.unk_token {
                Some(unk) => seq![unk],
                None => Seq::empty(),
            }
        }
    }

    /// The ids of characters.
    pub open spec fn chars_ids(self, s: Seq<char>) -> Seq<u32>
        decreases s.len(),
    {
        if s.len() == 0 {
            Seq::empty()
        } else {
            self.chars_ids(s.drop_last()) + self.char_ids(s.last())
        }
    }

    /// The ids of a part of a word: its own, or those of its characters.
    pub open spec fn part_ids(self, s: Seq<char>) -> Seq<u32> {
        if self.vocab.contains_key(s) {
            seq![self.vocab[s]]
        } else {
            self.chars_ids(s)
        }
    }

    /// The ids of parts.
    pub open spec fn parts_ids(self, parts: Seq<Seq<char>>) -> Seq<u32>
        decreases parts.len(),
    {
        if parts.len() == 0 {
            Seq::empty()
        } else {
            self.parts_ids(parts.drop_last()) + self.part_ids(parts.last())
        }
    }

    /// The ids of a word: of its characters, after all merges.
    pub open spec fn word_ids(self, w: Seq<char>) -> Seq<u32> {
        self.parts_ids(merges::merged(self.merges, bytelevel::singles(w)))
    }

    /// The ids of words.
    pub open spec fn words_ids(self, words: Seq<Seq<char>>) -> Seq<u32>
        decreases words.len(),
    {
        if words.len() == 0 {
            Seq::empty()
        } else {
            self.words_ids(words.drop_last()) + self.word_ids(words.last())
        }
    }

    /// The ids of a text.
    pub open spec fn encoded(self, s: Seq<char>) -> Seq<u32> {
        self.words_ids(self.words(s))
    }

    /// The id that is skipped in decoding.
    pub open spec fn skipped(self) -> u32 {
        match self.config.bos_token {
            Some(t) => t,
            None => u32::MAX,
        }
    }

    /// The id that ends decoding.
    pub open spec fn ending(self) -> u32 {
        match self.config.eos_token {
            Some(t) => t,
            None => u32::MAX,
        }
    }

    /// The bytes of a character: the byte that it stands for, or its own.
    pub open spec fn char_bytes(self, c: char) -> Seq<u8> {
        if self.config.byte_level {
            match bytelevel::char_byte(c) {
                Some(b) => seq![b],
                None => utf8::encode_utf8(seq![c]),
            }
        } else {
            utf8::encode_utf8(seq![c])
        }
    }

    /// The bytes of a token.
    pub open spec fn piece_bytes(self, s: Seq<char>) -> Seq<u8>
        decreases s.len(),
    {
        if s.len() == 0 {
            Seq::empty()
        } else {
            self.piece_bytes(s.drop_last()) + self.char_bytes(s.last())
        }
    }

    /// The bytes that ids stand for, up to the one that ends decoding; or the first that is
    /// unknown.
    pub open spec fn spelled(self, tokens: Seq<u32>) -> Result<Seq<u8>, u32>
        decreases tokens.len(),
    {
        if tokens.len() == 0 {
            Ok(Seq::empty())
        } else if tokens[0] == self.skipped() {
            self.spelled(tokens.drop_first())
        } else if tokens[0] == self.ending() {
            Ok(Seq::empty())
        } else if !self.pieces.contains_key(tokens[0]) {
            Err(tokens[0])
        } else {
            match self.spelled(tokens.drop_first()) {
                Ok(rest) => Ok(self.piece_bytes(self.pieces[tokens[0]]) + rest),
                Err(t) => Err(t),
            }
        }
    }

    /// What decoding gives: the text of the bytes, or the error that names an unknown id.
    pub open spec fn decodes(self, tokens: Seq<u32>, r: Result<Seq<char>, Seq<char>>) -> bool {
        match self.spelled(tokens) {
            Ok(bytes) => r == Ok::<Seq<char>, Seq<char>>(text::read_as(bytes)),
            Err(t) => r == Err::<Seq<char>, Seq<char>>("token_id="@ + text::decimal(t as nat)),
        }
    }
}

/// A byte-pair tokenizer.
pub struct BpeTokenizer {
    vocab: StringHashMap<u32>,
    inv_vocab: HashMap<u32, String>,
    table: MergeTable,
    config: TokenizerConfig,
}

impl View for BpeTokenizer {
    type V = BpeModel;

    closed spec fn view(&self) -> BpeModel {
        BpeModel {
            vocab: self.vocab@,
            pieces: self.inv_vocab@.map_values(|s: String| s@),
            merges: self.table.list(),
            config: self.config,
        }
    }
}

/// A result with the error taken for what it says of an unknown token.
pub open spec fn decode_result(r: Result<String, TokenizerError>) -> Option<Result<Seq<char>, Seq<char>>> {
    match r {
        Ok(s) => Some(Ok(s@)),
        Err(TokenizerError::UnknownToken(m)) => Some(Err(m@)),
        Err(_) => None,
    }
}

impl BpeTokenizer {
    /// The parts of the tokenizer agree with one another.
    pub closed spec fn wf(self) -> bool {
        &&& self.table.wf()
        &&& consistent(self@.vocab, self@.pieces)
    }

    /// The ids of the tokens and the tokens of the ids agree with one another.
    pub proof fn tokens_agree(self)
        requires
            self.wf(),
        ensures
            consistent(self@.vocab, self@.pieces),
    {
    }

    /// A tokenizer without tokens.
    pub fn new(config: TokenizerConfig) -> (r: BpeTokenizer)
        ensures
            r.wf(),
            r@ == (BpeModel { vocab: Map::empty(), pieces: Map::empty(), merges: Seq::empty(), config }),
    {
        let r: BpeTokenizer = BpeTokenizer {
            vocab: StringHashMap::new(),
            inv_vocab: HashMap::new(),
            table: MergeTable::new(Vec::new()),
            config,
        };
        assert(r@.pieces =~= Map::empty());
        assert(r@.merges =~= Seq::empty());
        r
    }

    /// A tokenizer with listed tokens and merges.
    pub fn from_vocab_and_merges(vocab: Vec<(String, u32)>, merges: Vec<(String, String)>) -> (r: BpeTokenizer)
        ensures
            r.wf(),
            r@.vocab == vocab_from(listed(vocab@)),
            r@.merges == merges::pair_texts(merges@),
            r@.config == (TokenizerConfig {
                vocab_size: vocab_from(listed(vocab@)).len() as usize,
                bos_token: None,
                eos_token: None,
                unk_token: None,
                byte_level: false,
                digits_individual: false,
            }),
            r@.config.vocab_size == r@.vocab.len(),
    {
        BpeTokenizer::from_vocab_and_merges_with_config(vocab, merges, TokenizerConfig::default())
    }

    /// A tokenizer with listed tokens and merges that works as told; the number of tokens is
    /// counted.
    pub fn from_vocab_and_merges_with_config(
        vocab: Vec<(String, u32)>,
        merges: Vec<(String, String)>,
        config: TokenizerConfig,
    ) -> (r: BpeTokenizer)
        ensures
            r.wf(),
            r@.vocab == vocab_from(listed(vocab@)),
            r@.merges == merges::pair_texts(merges@),
            r@.config == (TokenizerConfig { vocab_size: vocab_from(listed(vocab@)).len() as usize, ..config }),
            r@.config.vocab_size == r@.vocab.len(),
    {
        let ghost pairs = listed(vocab@);
        let n: usize = vocab.len();
        let mut ids: StringHashMap<u32> = StringHashMap::new();
        let mut i: usize = 0;
        assert(pairs.take(0) =~= Seq::<(Seq<char>, u32)>::empty());
        while i < n
            invariant
                n == vocab@.len(),
                pairs == listed(vocab@),
                i <= n,
                ids@ == vocab_from(pairs.take(i as int)),
            decreases n - i,
        {
            assert(pairs.take(i + 1).drop_last() =~= pairs.take(i as int));
            ids.insert(vocab[i].0.clone(), vocab[i].1);
            i = i + 1;
        }
        assert(pairs.take(n as int) =~= pairs);
        let mut inv: HashMap<u32, String> = HashMap::new();
        let mut k: usize = 0;
        while k < n
            invariant
                n == vocab@.len(),
                pairs == listed(vocab@),
                k <= n,
                ids@ == vocab_from(pairs),
                forall|id: u32| #[trigger] inv@.contains_key(id) ==> ids@.contains_key(inv@[id]@) && ids@[inv@[id]@] == id,
                forall|j: int| 0 <= j < k ==> inv@.contains_key(ids@[#[trigger] pairs[j].0]),
            decreases n - k,
        {
            proof {
                listed_is_vocab(pairs, k as int);
            }
            assert(pairs[k as int].0 == vocab@[k as int].0@);
            match ids.get(&vocab[k].0) {
                Some(id) => {
                    inv.insert(*id, vocab[k].0.clone());
                },
                None => {},
            }
            k = k + 1;
        }
        let size: usize = ids.len();
        let r: BpeTokenizer = BpeTokenizer {
            vocab: ids,
            inv_vocab: inv,
            table: MergeTable::new(merges),
            config: TokenizerConfig { vocab_size: size, ..config },
        };
        proof {
            assert forall|t: Seq<char>| #[trigger] r@.vocab.contains_key(t) implies r@.pieces.contains_key(r@.vocab[t]) by {
                vocab_is_listed(pairs, t);
                let j = choose|j: int| 0 <= j < pairs.len() && #[trigger] pairs[j].0 == t;
                assert(inv@.contains_key(ids@[pairs[j].0]));
            }
        }
        r
    }

    /// The number of tokens that the tokenizer goes by.
    pub fn vocab_size(&self) -> (r: usize)
        ensures
            r == self@.config.vocab_size,
    {
        self.config.vocab_size
    }

    /// How the tokenizer works.
    pub fn config(&self) -> (r: &TokenizerConfig)
        ensures
            *r == self@.config,
    {
        &self.config
    }

    /// Cuts a text into words.
    pub fn regex_split(&self, s: &str) -> (r: Vec<String>)
        ensures
            text::texts(r@) == pretokens::words_of(s@),
    {
        pretokens::regex_split(s)
    }

    /// Appends the ids of a part of a word.
    fn push_part(&self, part: &str, tokens: &mut Vec<u32>)
        ensures
            final(tokens)@ == old(tokens)@ + self@.part_ids(part@),
    {
        if let Some(id) = self.vocab.get(part) {
            tokens.push(*id);
            assert(tokens@ =~= old(tokens)@ + seq![*id]);
            return;
        }
        let chars: Vec<char> = text::chars_of(part);
        let n: usize = chars.len();
        let mut i: usize = 0;
        assert(part@.take(0) =~= Seq::<char>::empty());
        assert(tokens@ =~= old(tokens)@ + self@.chars_ids(part@.take(0)));
        while i < n
            invariant
                n == chars@.len(),
                chars@ == part@,
                i <= n,
                tokens@ == old(tokens)@ + self@.chars_ids(part@.take(i as int)),
            decreases n - i,
        {
            let c: char = chars[i];
            let ghost held = tokens@;
            let mut one: String = String::new();
            one.push(c);
            assert(one@ =~= seq![c]);
            match self.vocab.get(&one) {
                Some(id) => {
                    tokens.push(*id);
                },
                None => match self.config.unk_token {
                    Some(unk) => {
                        tokens.push(unk);
                    },
                    None => {},
                },
            }
            proof {
                assert(tokens@ =~= held + self@.char_ids(c));
                assert(part@.take(i + 1).drop_last() =~= part@.take(i as int));
                assert(tokens@ =~= old(tokens)@ + self@.chars_ids(part@.take(i + 1)));
            }
            i = i + 1;
        }
        assert(part@.take(n as int) =~= part@);
    }

    /// Appends the ids of a word.
    fn push_word(&self, word: &str, tokens: &mut Vec<u32>)
        requires
            self.wf(),
        ensures
            final(tokens)@ == old(tokens)@ + self@.word_ids(word@),
    {
        let chars: Vec<char> = text::chars_of(word);
        let n: usize = chars.len();
        let mut parts: Vec<String> = Vec::new();
        let mut i: usize = 0;
        while i < n
            invariant
                n == chars@.len(),
                chars@ == word@,
                i <= n,
                text::texts(parts@) == bytelevel::singles(word@.take(i as int)),
            decreases n - i,
        {
            let ghost held = text::texts(parts@);
            let mut one: String = String::new();
            one.push(chars[i]);
            assert(one@ =~= seq![word@[i as int]]);
            parts.push(one);
            assert(text::texts(parts@) =~= held.push(one@));
            assert(bytelevel::singles(word@.take(i + 1)) =~= held.push(seq![word@[i as int]]));
            i = i + 1;
        }
        assert(word@.take(n as int) =~= word@);
        let list: Vec<String> = self.table.apply(parts);
        let ghost model = text::texts(list@);
        let m: usize = list.len();
        let mut k: usize = 0;
        assert(model.take(0) =~= Seq::<Seq<char>>::empty());
        assert(tokens@ =~= old(tokens)@ + self@.parts_ids(model.take(0)));
        while k < m
            invariant
                m == list@.len(),
                model == text::texts(list@),
                k <= m,
                tokens@ == old(tokens)@ + self@.parts_ids(model.take(k as int)),
            decreases m - k,
        {
            let ghost held = tokens@;
            self.push_part(&list[k], tokens);
            proof {
                assert(model.take(k + 1).drop_last() =~= model.take(k as int));
                assert(model.take(k + 1).last() == list@[k as int]@);
                assert(tokens@ =~= old(tokens)@ + self@.parts_ids(model.take(k + 1)));
            }
            k = k + 1;
        }
        assert(model.take(m as int) =~= model);
    }

    /// The ids of a text.
    pub fn encode(&self, s: &str) -> (r: Vec<u32>)
        requires
            self.wf(),
        ensures
            r@ == self@.encoded(s@),
    {
        let words: Vec<String> = if self.config.byte_level {
            bytelevel::pretokenize_byte_level(s, self.config.digits_individual)
        } else {
            pretokens::regex_split(s)
        };
        let ghost model = self@.words(s@);
        let n: usize = words.len();
        let mut tokens: Vec<u32> = Vec::new();
        let mut i: usize = 0;
        assert(model.take(0) =~= Seq::<Seq<char>>::empty());
        assert(tokens@ =~= self@.words_ids(model.take(0)));
        while i < n
            invariant
                self.wf(),
                n == words@.len(),
                model == text::texts(words@),
                i <= n,
                tokens@ == self@.words_ids(model.take(i as int)),
            decreases n - i,
        {
            self.push_word(&words[i], &mut tokens);
            proof {
                assert(model.take(i + 1).drop_last() =~= model.take(i as int));
                assert(model.take(i + 1).last() == words@[i as int]@);
            }
            i = i + 1;
        }
        assert(model.take(n as int) =~= model);
        tokens
    }

    /// The ids of a text between those that mark its start and its end, where they are asked for
    /// and known.
    pub fn encode_with_special(&self, s: &str, add_bos: bool, add_eos: bool) -> (r: Vec<u32>)
        requires
            self.wf(),
        ensures
            r@ == mark(self@.config.bos_token, add_bos) + self@.encoded(s@) + mark(self@.config.eos_token, add_eos),
    {
        let mut tokens: Vec<u32> = Vec::new();
        if add_bos {
            if let Some(bos) = self.config.bos_token {
                tokens.push(bos);
            }
        }
        assert(tokens@ =~= mark(self@.config.bos_token, add_bos));
        let mut body: Vec<u32> = self.encode(s);
        tokens.append(&mut body);
        if add_eos {
            if let Some(eos) = self.config.eos_token {
                tokens.push(eos);
            }
        }
        assert(tokens@ =~= mark(self@.config.bos_token, add_bos) + self@.encoded(s@) + mark(self@.config.eos_token, add_eos));
        tokens
    }

    /// Appends the bytes of a token.
    fn push_piece(&self, piece: &str, out: &mut Vec<u8>)
        ensures
            final(out)@ == old(out)@ + self@.piece_bytes(piece@),
    {
        let chars: Vec<char> = text::chars_of(piece);
        let n: usize = chars.len();
        let mut i: usize = 0;
        assert(piece@.take(0) =~= Seq::<char>::empty());
        assert(out@ =~= old(out)@ + self@.piece_bytes(piece@.take(0)));
        while i < n
            invariant
                n == chars@.len(),
                chars@ == piece@,
                i <= n,
                out@ == old(out)@ + self@.piece_bytes(piece@.take(i as int)),
            decreases n - i,
        {
            let c: char = chars[i];
            let ghost held = out@;
            let byte: Option<u8> = if self.config.byte_level { bytelevel::decode_byte(c) } else { None };
            match byte {
                Some(b) => {
                    out.push(b);
                    assert(out@ =~= held + seq![b]);
                },
                None => {
                    let mut one: String = String::new();
                    one.push(c);
                    assert(one@ =~= seq![c]);
                    let own: &[u8] = one.as_str().as_bytes();
                    out.extend_from_slice(own);
                    assert(out@ =~= held + own@);
                },
            }
            proof {
                assert(out@ =~= held + self@.char_bytes(c));
                assert(piece@.take(i + 1).drop_last() =~= piece@.take(i as int));
                assert(out@ =~= old(out)@ + self@.piece_bytes(piece@.take(i + 1)));
            }
            i = i + 1;
        }
        assert(piece@.take(n as int) =~= piece@);
    }

    /// The text of ids.
    pub fn decode(&self, tokens: &[u32]) -> (r: Result<String, TokenizerError>)
        ensures
            decode_result(r) matches Some(d) && self@.decodes(tokens@, d),
    {
        let skipped: u32 = match self.config.bos_token {
            Some(t) => t,
            None => u32::MAX,
        };
        let ending: u32 = match self.config.eos_token {
            Some(t) => t,
            None => u32::MAX,
        };
        let mut out: Vec<u8> = Vec::new();
        let mut i: usize = 0;
        assert(tokens@.skip(0) =~= tokens@);
        assert(tokens.len() == tokens@.len());
        proof {
            match self@.spelled(tokens@) {
                Ok(rest) => {
                    assert(out@ + rest =~= rest);
                },
                Err(_) => {},
            }
        }
        while i < tokens.len()
            invariant
                skipped == self@.skipped(),
                ending == self@.ending(),
                tokens.len() == tokens@.len(),
                i <= tokens@.len(),
                match self@.spelled(tokens@.skip(i as int)) {
                    Ok(rest) => self@.spelled(tokens@) == Ok::<Seq<u8>, u32>(out@ + rest),
                    Err(t) => self@.spelled(tokens@) == Err::<Seq<u8>, u32>(t),
                },
            decreases tokens@.len() - i,
        {
            let t: u32 = tokens[i];
            proof {
                assert(tokens@.skip(i as int)[0] == t);
                assert(tokens@.skip(i as int).drop_first() =~= tokens@.skip(i + 1));
            }
            if t == skipped {
                i = i + 1;
            } else if t == ending {
                assert(out@ + Seq::<u8>::empty() =~= out@);
                return Ok(text::lossy_text(out));
            } else {
                match self.inv_vocab.get(&t) {
                    Some(s) => {
                        let ghost held = out@;
                        assert(self@.pieces.contains_key(t) && self@.pieces[t] == s@);
                        self.push_piece(s, &mut out);
                        proof {
                            match self@.spelled(tokens@.skip(i + 1)) {
                                Ok(rest) => {
                                    assert(held + (self@.piece_bytes(s@) + rest) =~= out@ + rest);
                                },
                                Err(_) => {},
                            }
                        }
                        i = i + 1;
                    },
                    None => {
                        assert(!self@.pieces.contains_key(t));
                        return Err(TokenizerError::UnknownToken(text::joined("token_id=", &text::decimal_text(t as u64))));
                    },
                }
            }
        }
        assert(out@ + Seq::<u8>::empty() =~= out@);
        Ok(text::lossy_text(out))
    }
}

/// The id of a mark, where it is asked for and known.
pub open spec fn mark(token: Option<u32>, wanted: bool) -> Seq<u32> {
    match token {
        Some(t) => if wanted {
            seq![t]
        } else {
            Seq::empty()
        },
        None => Seq::empty(),
    }
}

/// The id of a listed token; the last one counts.
pub(crate) fn id_of(list: &Vec<(String, u32)>, token: &str) -> (r: Option<u32>)
    ensures
        r == (if vocab_from(listed(list@)).contains_key(token@) {
            Some(vocab_from(listed(list@))[token@])
        } else {
            None
        }),
{
    let ghost model = listed(list@);
    let mut i: usize = list.len();
    assert(model.take(i as int) =~= model);
    while i > 0
        invariant
            model == listed(list@),
            i <= list@.len(),
            vocab_from(model).contains_key(token@) == vocab_from(model.take(i as int)).contains_key(token@),
            vocab_from(model).contains_key(token@) ==> vocab_from(model)[token@] == vocab_from(model.take(i as int))[token@],
        decreases i,
    {
        i = i - 1;
        assert(model.take(i + 1).drop_last() =~= model.take(i as int));
        assert(model.take(i + 1).last() == (list@[i as int].0@, list@[i as int].1));
        if text::same(&list[i].0, token) {
            return Some(list[i].1);
        }
    }
    None
}

} // verus!
