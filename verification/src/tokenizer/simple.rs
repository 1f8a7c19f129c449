//! A tokenizer whose tokens are characters.
use crate::text;
use std::collections::HashMap;
use vstd::prelude::*;

verus! {

broadcast use vstd::std_specs::hash::group_hash_axioms;

/// The ids of listed characters, by their numbers; a later one replaces an earlier one.
pub open spec fn ids_from(list: Seq<(char, u32)>) -> Map<u32, u32>
    decreases list.len(),
{
    if list.len() == 0 {
        Map::empty()
    } else {
        ids_from(list.drop_last()).insert(list.last().0 as u32, list.last().1)
    }
}

/// The characters of listed ids; a later one replaces an earlier one.
pub open spec fn chars_from(list: Seq<(char, u32)>) -> Map<u32, char>
    decreases list.len(),
{
    if list.len() == 0 {
        Map::empty()
    } else {
        chars_from(list.drop_last()).insert(list.last().1, list.last().0)
    }
}

/// The ids of the characters that have one.
pub open spec fn encoded(ids: Map<u32, u32>, s: Seq<char>) -> Seq<u32>
    decreases s.len(),
{
    if s.len() == 0 {
        Seq::empty()
    } else if ids.contains_key(s.last() as u32) {
        encoded(ids, s.drop_last()).push(ids[s.last() as u32])
    } else {
        encoded(ids, s.drop_last())
    }
}

/// The characters of the ids that have one.
pub open spec fn decoded(chars: Map<u32, char>, tokens: Seq<u32>) -> Seq<char>
    decreases tokens.len(),
{
    if tokens.len() == 0 {
        Seq::empty()
    } else if chars.contains_key(tokens.last()) {
        decoded(chars, tokens.drop_last()).push(chars[tokens.last()])
    } else {
        decoded(chars, tokens.drop_last())
    }
}

/// A tokenizer whose tokens are characters.
pub struct SimpleTokenizer {
    char_to_id: HashMap<u32, u32>,
    id_to_char: HashMap<u32, char>,
    list: Ghost<Seq<(char, u32)>>,
}

impl SimpleTokenizer {
    /// The characters and ids that the tokenizer was made of.
    pub closed spec fn list(self) -> Seq<(char, u32)> {
        self.list@
    }

    /// The tokenizer knows what was listed.
    pub closed spec fn wf(self) -> bool {
        &&& self.char_to_id@ == ids_from(self.list())
        &&& self.id_to_char@ == chars_from(self.list())
    }

    /// Makes a tokenizer of listed characters and ids.
    pub fn from_vocab(vocab: &[(char, u32)]) -> (r: SimpleTokenizer)
        ensures
            r.wf(),
            r.list() == vocab@,
    {
        let mut char_to_id: HashMap<u32, u32> = HashMap::new();
        let mut id_to_char: HashMap<u32, char> = HashMap::new();
        let mut i: usize = 0;
        assert(vocab@.take(0) =~= Seq::<(char, u32)>::empty());
        assert(vocab.len() == vocab@.len());
        while i < vocab.len()
            invariant
                vocab.len() == vocab@.len(),
                i <= vocab@.len(),
                char_to_id@ == ids_from(vocab@.take(i as int)),
                id_to_char@ == chars_from(vocab@.take(i as int)),
            decreases vocab@.len() - i,
        {
            let c: char = vocab[i].0;
            let id: u32 = vocab[i].1;
            assert(vocab@.take(i + 1).drop_last() =~= vocab@.take(i as int));
            assert(vocab@.take(i + 1).last() == (c, id));
            char_to_id.insert(c as u32, id);
            id_to_char.insert(id, c);
            i = i + 1;
        }
        assert(vocab@.take(vocab@.len() as int) =~= vocab@);
        SimpleTokenizer { char_to_id, id_to_char, list: Ghost(vocab@) }
    }

    /// The ids of the characters of a text that have one.
    pub fn encode(&self, s: &str) -> (r: Vec<u32>)
        requires
            self.wf(),
        ensures
            r@ == encoded(ids_from(self.list()), s@),
    {
        let chars: Vec<char> = text::chars_of(s);
        let ghost ids = ids_from(self.list());
        let n: usize = chars.len();
        let mut out: Vec<u32> = Vec::new();
        let mut i: usize = 0;
        assert(s@.take(0) =~= Seq::<char>::empty());
        assert(out@ =~= encoded(ids, s@.take(0)));
        while i < n
            invariant
                self.wf(),
                ids == ids_from(self.list()),
                n == chars@.len(),
                chars@ == s@,
                i <= n,
                out@ == encoded(ids, s@.take(i as int)),
            decreases n - i,
        {
            let c: char = chars[i];
            assert(s@.take(i + 1).drop_last() =~= s@.take(i as int));
            assert(s@.take(i + 1).last() == c);
            if let Some(id) = self.char_to_id.get(&(c as u32)) {
                out.push(*id);
            }
            i = i + 1;
        }
        assert(s@.take(n as int) =~= s@);
        out
    }

    /// The characters of the ids that have one.
    pub fn decode(&self, tokens: &[u32]) -> (r: String)
        requires
            self.wf(),
        ensures
            r@ == decoded(chars_from(self.list()), tokens@),
    {
        let ghost chars = chars_from(self.list());
        let mut out: String = String::new();
        let mut i: usize = 0;
        assert(tokens@.take(0) =~= Seq::<u32>::empty());
        assert(out@ =~= decoded(chars, tokens@.take(0)));
        assert(tokens.len() == tokens@.len());
        while i < tokens.len()
            invariant
                self.wf(),
                chars == chars_from(self.list()),
                tokens.len() == tokens@.len(),
                i <= tokens@.len(),
                out@ == decoded(chars, tokens@.take(i as int)),
            decreases tokens@.len() - i,
        {
            assert(tokens@.take(i + 1).drop_last() =~= tokens@.take(i as int));
            if let Some(c) = self.id_to_char.get(&tokens[i]) {
                out.push(*c);
            }
            i = i + 1;
        }
        assert(tokens@.take(tokens@.len() as int) =~= tokens@);
        out
    }

    /// The number of different characters.
    pub fn vocab_size(&self) -> (r: usize)
        requires
            self.wf(),
        ensures
            r == ids_from(self.list()).len(),
    {
        self.char_to_id.len()
    }
}

/// No two characters share an id.
pub open spec fn one_to_one(list: Seq<(char, u32)>) -> bool {
    forall|i: int, j: int|
        0 <= i < list.len() && 0 <= j < list.len() && i != j ==> (#[trigger] list[i]).0 != (#[trigger] list[j]).0 && list[i].1 != list[j].1
}

/// Characters with the same number are the same.
proof fn same_number(c: char, d: char)
    requires
        c as u32 == d as u32,
    ensures
        c == d,
{
    vstd::utf8::char_u32_cast(c, c as u32);
    vstd::utf8::char_u32_cast(d, c as u32);
}

/// In a list without repetitions, the id of a character leads back to it.
proof fn id_leads_back(list: Seq<(char, u32)>, c: char)
    requires
        one_to_one(list),
        ids_from(list).contains_key(c as u32),
    ensures
        chars_from(list).contains_key(ids_from(list)[c as u32]),
        chars_from(list)[ids_from(list)[c as u32]] == c,
        exists|i: int| 0 <= i < list.len() && #[trigger] list[i] == (c, ids_from(list)[c as u32]),
    decreases list.len(),
{
    let head = list.drop_last();
    if list.last().0 as u32 == c as u32 {
        same_number(list.last().0, c);
        assert(list[list.len() - 1] == (c, ids_from(list)[c as u32]));
    } else {
        assert forall|i: int, j: int| 0 <= i < head.len() && 0 <= j < head.len() && i != j implies (#[trigger] head[i]).0
            != (#[trigger] head[j]).0 && head[i].1 != head[j].1 by {
            assert(list[i] == head[i] && list[j] == head[j]);
        }
        id_leads_back(head, c);
        let i = choose|i: int| 0 <= i < head.len() && #[trigger] head[i] == (c, ids_from(head)[c as u32]);
        assert(list[i] == head[i]);
        assert(list[i].1 != list[list.len() - 1].1);
    }
}

/// Decoding undoes encoding: without repetitions in the list, a text of listed characters comes
/// back from its ids.
pub proof fn decode_undoes_encode(list: Seq<(char, u32)>, s: Seq<char>)
    requires
        one_to_one(list),
        forall|i: int| 0 <= i < s.len() ==> ids_from(list).contains_key(#[trigger] s[i] as u32),
    ensures
        decoded(chars_from(list), encoded(ids_from(list), s)) == s,
    decreases s.len(),
{
    if s.len() == 0 {
        assert(decoded(chars_from(list), encoded(ids_from(list), s)) =~= s);
    } else {
        let head = s.drop_last();
        assert forall|i: int| 0 <= i < head.len() implies ids_from(list).contains_key(#[trigger] head[i] as u32) by {
            assert(head[i] == s[i]);
        }
        decode_undoes_encode(list, head);
        assert(ids_from(list).contains_key(s[s.len() - 1] as u32));
        id_leads_back(list, s.last());
        let tokens = encoded(ids_from(list), s);
        assert(tokens.drop_last() =~= encoded(ids_from(list), head));
        assert(head.push(s.last()) =~= s);
    }
}

/// A character has the id that it is listed with last, and an id the character; what is not listed has
/// none.
pub proof fn last_listed_counts(list: Seq<(char, u32)>, c: char, id: u32)
    ensures
        ids_from(list.push((c, id))).contains_key(c as u32),
        ids_from(list.push((c, id)))[c as u32] == id,
        chars_from(list.push((c, id))).contains_key(id),
        chars_from(list.push((c, id)))[id] == c,
        forall|d: u32| d != c as u32 ==> (#[trigger] ids_from(list.push((c, id))).contains_key(d) <==> ids_from(list).contains_key(d)),
        forall|d: u32| d != id ==> (#[trigger] chars_from(list.push((c, id))).contains_key(d) <==> chars_from(list).contains_key(d)),
        forall|d: u32| !#[trigger] ids_from(Seq::empty()).contains_key(d),
        forall|d: u32| !#[trigger] chars_from(Seq::empty()).contains_key(d),
{
    assert(list.push((c, id)).drop_last() =~= list);
}

/// Texts are encoded and ids decoded one by one, in their order; what is unknown is left out.
pub proof fn texts_are_encoded_one_by_one(ids: Map<u32, u32>, chars: Map<u32, char>, s: Seq<char>, c: char, tokens: Seq<u32>, t: u32)
    ensures
        ids.contains_key(c as u32) ==> encoded(ids, s.push(c)) == encoded(ids, s).push(ids[c as u32]),
        !ids.contains_key(c as u32) ==> encoded(ids, s.push(c)) == encoded(ids, s),
        chars.contains_key(t) ==> decoded(chars, tokens.push(t)) == decoded(chars, tokens).push(chars[t]),
        !chars.contains_key(t) ==> decoded(chars, tokens.push(t)) == decoded(chars, tokens),
        encoded(ids, Seq::empty()).len() == 0,
        decoded(chars, Seq::empty()).len() == 0,
{
    assert(s.push(c).drop_last() =~= s);
    assert(tokens.push(t).drop_last() =~= tokens);
}

} // verus!
