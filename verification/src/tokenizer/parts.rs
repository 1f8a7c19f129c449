//! What the ids of a text are ids of: how words are parted, and which token each part is given.
use super::bpe;
use super::bpe::BpeModel;
use super::bytelevel;
use super::merges;
use super::pretokens;
use super::pretokens::Class;
use vstd::prelude::*;

verus! {

/// The words of a text before a separator do not change when the separator and more text come
/// after them.
proof fn open_words_after(a: Seq<char>, c: char, b: Seq<char>)
    requires
        pretokens::separator(c),
    ensures
        pretokens::open_words(a.push(c) + b).0 == pretokens::words_of(a).push(seq![c]) + pretokens::open_words(b).0,
        pretokens::open_words(a.push(c) + b).1 == pretokens::open_words(b).1,
    decreases b.len(),
{
    let all = a.push(c) + b;
    if b.len() == 0 {
        assert(all =~= a.push(c));
        assert(all.drop_last() =~= a);
        assert(pretokens::open_words(all).0 =~= pretokens::words_of(a).push(seq![c]) + pretokens::open_words(b).0);
    } else {
        open_words_after(a, c, b.drop_last());
        assert(all.drop_last() =~= a.push(c) + b.drop_last());
        assert(all.last() == b.last());
        let front = pretokens::words_of(a).push(seq![c]);
        let (words, current) = pretokens::open_words(b.drop_last());
        if pretokens::separator(b.last()) {
            assert(pretokens::closed(front + words, current) =~= front + pretokens::closed(words, current));
            assert((front + pretokens::closed(words, current)).push(seq![b.last()]) =~= front + pretokens::closed(words, current).push(
                seq![b.last()],
            ));
        }
    }
}

/// A text without separators is one open word.
proof fn open_word_is_whole(s: Seq<char>)
    requires
        forall|i: int| 0 <= i < s.len() ==> !pretokens::separator(#[trigger] s[i]),
    ensures
        pretokens::open_words(s) == (Seq::<Seq<char>>::empty(), s),
    decreases s.len(),
{
    if s.len() == 0 {
        assert(s =~= Seq::empty());
    } else {
        open_word_is_whole(s.drop_last());
        assert(!pretokens::separator(s[s.len() - 1]));
        assert(s.drop_last().push(s.last()) =~= s);
    }
}

/// Whitespace and ASCII punctuation part a text, and nothing else does: the words of a text around
/// such a character are those before it, the character, and those behind it; a text without any is
/// one word.
pub proof fn separators_part_words(a: Seq<char>, c: char, b: Seq<char>)
    ensures
        (pretokens::whitespace(c) || 33 <= c as int <= 47 || 58 <= c as int <= 64 || 91 <= c as int <= 96 || 123 <= c as int <= 126)
            ==> pretokens::words_of(a + seq![c] + b) == pretokens::words_of(a) + seq![seq![c]] + pretokens::words_of(b),
        (a.len() > 0 && forall|i: int| 0 <= i < a.len() ==> !(pretokens::whitespace(#[trigger] a[i]) || pretokens::ascii_punctuation(a[i])))
            ==> pretokens::words_of(a) == seq![a],
        pretokens::words_of(Seq::<char>::empty()).len() == 0,
{
    if pretokens::separator(c) {
        open_words_after(a, c, b);
        assert(a + seq![c] + b =~= a.push(c) + b);
        let front = pretokens::words_of(a).push(seq![c]);
        let (words, current) = pretokens::open_words(b);
        assert(pretokens::closed(front + words, current) =~= front + pretokens::closed(words, current));
        assert(front =~= pretokens::words_of(a) + seq![seq![c]]);
    }
    if a.len() > 0 && forall|i: int| 0 <= i < a.len() ==> !(pretokens::whitespace(#[trigger] a[i]) || pretokens::ascii_punctuation(a[i])) {
        assert forall|i: int| 0 <= i < a.len() implies !pretokens::separator(#[trigger] a[i]) by {}
        open_word_is_whole(a);
        assert(pretokens::words_of(a) =~= seq![a]);
    }
    assert(pretokens::open_words(Seq::<char>::empty()).0.len() == 0);
}

impl BpeModel {
    /// The ids of words after others are the ids of both.
    proof fn words_ids_join(self, a: Seq<Seq<char>>, b: Seq<Seq<char>>)
        ensures
            self.words_ids(a + b) == self.words_ids(a) + self.words_ids(b),
        decreases b.len(),
    {
        if b.len() == 0 {
            assert(a + b =~= a);
            assert(self.words_ids(a) + self.words_ids(b) =~= self.words_ids(a));
        } else {
            self.words_ids_join(a, b.drop_last());
            assert((a + b).drop_last() =~= a + b.drop_last());
            assert(self.words_ids(a) + (self.words_ids(b.drop_last()) + self.word_ids(b.last())) =~= (self.words_ids(a) + self.words_ids(
                b.drop_last(),
            )) + self.word_ids(b.last()));
        }
    }

    /// Where texts are not written byte by byte, the ids of a text around a separator are those of
    /// what stands before it, of the separator and of what stands behind it.
    pub proof fn ids_are_parted_by_separators(self, a: Seq<char>, c: char, b: Seq<char>)
        requires
            !self.config.byte_level,
            pretokens::whitespace(c) || pretokens::ascii_punctuation(c),
        ensures
            self.encoded(a + seq![c] + b) == self.encoded(a) + self.encoded(seq![c]) + self.encoded(b),
            self.encoded(Seq::empty()) == Seq::<u32>::empty(),
    {
        separators_part_words(a, c, b);
        separators_part_words(Seq::empty(), c, Seq::empty());
        let wa = pretokens::words_of(a);
        let wb = pretokens::words_of(b);
        let none = pretokens::words_of(Seq::<char>::empty());
        assert(Seq::<char>::empty() + seq![c] + Seq::<char>::empty() =~= seq![c]);
        assert(none + seq![seq![c]] + none =~= seq![seq![c]]);
        self.words_ids_join(wa + seq![seq![c]], wb);
        self.words_ids_join(wa, seq![seq![c]]);
    }

    /// The ids of parts that are all tokens are theirs, one by one.
    proof fn parts_have_ids(self, parts: Seq<Seq<char>>)
        requires
            forall|i: int| 0 <= i < parts.len() ==> self.vocab.contains_key(#[trigger] parts[i]),
        ensures
            self.parts_ids(parts) == Seq::new(parts.len(), |i: int| self.vocab[parts[i]]),
        decreases parts.len(),
    {
        if parts.len() > 0 {
            let rest = parts.drop_last();
            assert forall|i: int| 0 <= i < rest.len() implies self.vocab.contains_key(#[trigger] rest[i]) by {
                assert(rest[i] == parts[i]);
            }
            self.parts_have_ids(rest);
            assert(self.vocab.contains_key(parts[parts.len() - 1]));
        }
        assert(self.parts_ids(parts) =~= Seq::new(parts.len(), |i: int| self.vocab[parts[i]]));
    }

    /// The ids of a word whose characters are tokens, and whose merges make tokens, are the ids of
    /// parts of it: the parts are the word, one after the other, and no two neighbours of them form
    /// a pair in the list of merges.
    pub proof fn word_is_parted_into_tokens(self, w: Seq<char>) -> (parts: Seq<Seq<char>>)
        requires
            forall|t: Seq<char>|
                (t.len() == 1 && w.contains(t[0])) || (exists|k: int| 0 <= k < self.merges.len() && (#[trigger] self.merges[k]).0 + self.merges[k].1
                    == t) ==> #[trigger] self.vocab.contains_key(t),
        ensures
            pretokens::flat(parts) == w,
            self.word_ids(w).len() == parts.len(),
            forall|i: int|
                0 <= i < parts.len() ==> self.vocab.contains_key(#[trigger] parts[i]) && self.word_ids(w)[i] == self.vocab[parts[i]],
            forall|j: int, i: int|
                0 <= j < self.merges.len() && 0 <= i && i + 1 < parts.len() ==> #[trigger] self.merges[j] != (#[trigger] parts[i], parts[i + 1]),
    {
        let singles = bytelevel::singles(w);
        let parts = merges::merged(self.merges, singles);
        bytelevel::singles_keep(w);
        merges::merged_keeps_text(self.merges, singles);
        merges::nothing_is_left_to_merge(self.merges, singles);
        assert forall|i: int| 0 <= i < singles.len() implies self.vocab.contains_key(#[trigger] singles[i]) by {
            assert(singles[i][0] == w[i]);
            assert(w.contains(w[i]));
        }
        self.merges_stay_tokens(singles);
        self.parts_have_ids(parts);
        parts
    }

    /// Where merges make tokens, parts that are tokens stay so.
    proof fn merges_stay_tokens(self, parts: Seq<Seq<char>>)
        requires
            forall|i: int| 0 <= i < parts.len() ==> self.vocab.contains_key(#[trigger] parts[i]),
            forall|t: Seq<char>|
                (exists|k: int| 0 <= k < self.merges.len() && (#[trigger] self.merges[k]).0 + self.merges[k].1 == t) ==> #[trigger] self.vocab.contains_key(t),
        ensures
            forall|i: int|
                0 <= i < merges::merged(self.merges, parts).len() ==> self.vocab.contains_key(#[trigger] merges::merged(self.merges, parts)[i]),
        decreases parts.len(),
    {
        if exists|p: int| #[trigger] merges::foremost(self.merges, parts, p) {
            let p = choose|p: int| #[trigger] merges::foremost(self.merges, parts, p);
            assert(merges::mergeable(self.merges, parts, p));
            merges::merge_rank_is_first(self.merges, parts[p], parts[p + 1]);
            let k = merges::rank_at(self.merges, parts, p) as int;
            assert(self.merges[k].0 + self.merges[k].1 == parts[p] + parts[p + 1]);
            let next = merges::joined_at(parts, p);
            assert forall|i: int| 0 <= i < next.len() implies self.vocab.contains_key(#[trigger] next[i]) by {
                if i < p {
                    assert(next[i] == parts[i]);
                } else if i > p {
                    assert(next[i] == parts[i + 1]);
                } else {
                    assert(next[i] == parts[p] + parts[p + 1]);
                }
            }
            self.merges_stay_tokens(next);
            assert(merges::merged(self.merges, parts) == merges::merged(self.merges, next));
        } else {
            assert(merges::merged(self.merges, parts) == parts);
        }
    }

    /// The ids of a text whose words are known are those of the words, in their order.
    pub proof fn ids_follow_the_words(self, s: Seq<char>, k: int)
        requires
            0 <= k <= self.words(s).len(),
        ensures
            self.encoded(s) == self.words_ids(self.words(s).take(k)) + self.words_ids(self.words(s).skip(k)),
            self.words(s).len() == 1 ==> self.encoded(s) == self.word_ids(self.words(s)[0]),
    {
        let words = self.words(s);
        assert(words.take(k) + words.skip(k) =~= words);
        self.words_ids_join(words.take(k), words.skip(k));
        if words.len() == 1 {
            assert(words.drop_last() =~= Seq::<Seq<char>>::empty());
            assert(self.words_ids(words.drop_last()) =~= Seq::<u32>::empty());
            assert(self.words_ids(words) =~= self.word_ids(words[0]));
        }
    }

    /// A part that is no token is spelled: each of its characters has the id of its own token, or
    /// that of the unknown token where it has none and there is one.
    pub proof fn part_without_token_is_spelled(self, s: Seq<char>, c: char)
        ensures
            self.vocab.contains_key(s) ==> self.part_ids(s) == seq![self.vocab[s]],
            !self.vocab.contains_key(s.push(c)) ==> self.part_ids(s.push(c)) == self.chars_ids(s) + (if self.vocab.contains_key(seq![c]) {
                seq![self.vocab[seq![c]]]
            } else if self.config.unk_token is Some {
                seq![self.config.unk_token.unwrap()]
            } else {
                Seq::<u32>::empty()
            }),
            self.chars_ids(Seq::empty()).len() == 0,
    {
        assert(s.push(c).drop_last() =~= s);
    }
}

/// A run goes on for as long as the class does.
proof fn run_is_of_class(s: Seq<char>, i: int, class: Class)
    requires
        0 <= i <= s.len(),
    ensures
        forall|k: int| i <= k < bytelevel::run_end(s, i, class) ==> pretokens::in_class(#[trigger] s[k], class),
        bytelevel::run_end(s, i, class) < s.len() ==> !pretokens::in_class(s[bytelevel::run_end(s, i, class)], class),
        i <= bytelevel::run_end(s, i, class) <= s.len(),
    decreases s.len() - i,
{
    if i < s.len() && pretokens::in_class(s[i], class) {
        run_is_of_class(s, i + 1, class);
    }
}

/// The characters of a stretch are in a class.
pub open spec fn all_in(s: Seq<char>, i: int, j: int, class: Class) -> bool {
    forall|k: int| i <= k < j ==> pretokens::in_class(#[trigger] s[k], class)
}

/// A stretch of a class that cannot be made longer.
pub open spec fn full_run(s: Seq<char>, i: int, j: int, class: Class) -> bool {
    &&& i <= j <= s.len()
    &&& all_in(s, i, j, class)
    &&& j < s.len() ==> !pretokens::in_class(s[j], class)
}

/// What stands behind an apostrophe makes a contraction of so many characters with it.
pub open spec fn contracts(s: Seq<char>, i: int, n: int) -> bool {
    let at = |k: int, c: char| pretokens::ascii_lower(s[i + k]) == c as int;
    ||| n == 2 && i + 1 < s.len() && (at(1, 's') || at(1, 't') || at(1, 'm') || at(1, 'd'))
    ||| n == 3 && i + 2 < s.len() && ((at(1, 'l') && at(2, 'l')) || (at(1, 'v') && at(2, 'e')) || (at(1, 'r') && at(2, 'e')))
}

/// The chunk at a place is the longest of its kind: a contraction, one whitespace or none and all
/// letters behind it, all digits, one whitespace or none and all punctuation with all line breaks
/// behind it, or all whitespace but the one that what follows takes along.
pub proof fn chunk_is_the_longest_of_its_kind(s: Seq<char>, i: int)
    requires
        0 <= i < s.len(),
    ensures
        ({
            let j = bytelevel::chunk_end(s, i);
            let c = s[i];
            let next = i + 1 < s.len();
            &&& i < j <= s.len()
            &&& if c == '\'' && (contracts(s, i, 2) || contracts(s, i, 3)) {
                contracts(s, i, j - i) && (contracts(s, i, 2) ==> j == i + 2)
            } else if pretokens::letter(c) {
                full_run(s, i, j, Class::Letter)
            } else if pretokens::whitespace(c) && next && pretokens::letter(s[i + 1]) {
                full_run(s, i + 1, j, Class::Letter)
            } else if pretokens::number(c) {
                full_run(s, i, j, Class::Number)
            } else if !pretokens::whitespace(c) {
                exists|m: int| #[trigger] full_run(s, i, m, Class::Punct) && i < m && full_run(s, m, j, Class::Break)
            } else if next && !pretokens::whitespace(s[i + 1]) && !pretokens::number(s[i + 1]) {
                exists|m: int| #[trigger] full_run(s, i + 1, m, Class::Punct) && i + 1 < m && full_run(s, m, j, Class::Break)
            } else {
                &&& all_in(s, i, j, Class::Space)
                &&& j < s.len() ==> !pretokens::whitespace(s[j]) && j == i + 1 || (pretokens::whitespace(s[j]) && j + 1 < s.len() && !pretokens::whitespace(s[j + 1]))
            }
        }),
{
    let j = bytelevel::chunk_end(s, i);
    bytelevel::chunk_end_bounds(s, i);
    run_is_of_class(s, i + 1, Class::Letter);
    run_is_of_class(s, i + 1, Class::Number);
    run_is_of_class(s, i + 1, Class::Punct);
    run_is_of_class(s, i + 1, Class::Space);
    let m = bytelevel::run_end(s, i + 1, Class::Punct);
    run_is_of_class(s, m, Class::Break);
    assert(pretokens::in_class(s[i], Class::Punct) ==> full_run(s, i, m, Class::Punct));
    if i + 1 < s.len() {
        run_is_of_class(s, i + 2, Class::Letter);
        run_is_of_class(s, i + 2, Class::Punct);
        let n = bytelevel::run_end(s, i + 2, Class::Punct);
        run_is_of_class(s, n, Class::Break);
        assert(pretokens::in_class(s[i + 1], Class::Punct) ==> full_run(s, i + 1, n, Class::Punct));
    }
}

/// Each byte is written as a character of its own: the printable ones as themselves, the other
/// sixty-eight, in their order, as the sixty-eight characters from 256 on.
pub proof fn bytes_have_characters(a: u8, b: u8)
    ensures
        (33 <= a <= 126 || 161 <= a <= 172 || 174 <= a) ==> bytelevel::byte_char(a) as int == a,
        !(33 <= a <= 126 || 161 <= a <= 172 || 174 <= a) ==> 256 <= bytelevel::byte_char(a) as int <= 323,
        a < b && !(33 <= a <= 126 || 161 <= a <= 172 || 174 <= a) && !(33 <= b <= 126 || 161 <= b <= 172 || 174 <= b) ==> (bytelevel::byte_char(a) as int)
            < bytelevel::byte_char(b) as int,
{
    bytelevel::byte_found_again(a);
    bytelevel::byte_found_again(b);
}

/// The chunks of a text follow one another without a gap: the first is what stands up to its end,
/// or its characters one by one where they are digits that are taken so, and the others are those
/// of what is left.
pub proof fn chunks_follow_one_another(s: Seq<char>, i: int, digits: bool)
    requires
        0 <= i < s.len(),
    ensures
        ({
            let j = bytelevel::chunk_end(s, i);
            let all = bytelevel::chunks_from(s, i, digits);
            let rest = bytelevel::chunks_from(s, j, digits);
            let apart = digits && pretokens::number(s[i]) && !pretokens::letter(s[i]) && !pretokens::whitespace(s[i]) && s[i] != '\'';
            &&& apart ==> {
                &&& all.len() == j - i + rest.len()
                &&& forall|k: int| 0 <= k < j - i ==> #[trigger] all[k] == seq![s[i + k]]
                &&& forall|k: int| 0 <= k < rest.len() ==> #[trigger] rest[k] == all[j - i + k]
            }
            &&& !digits || !pretokens::number(s[i]) ==> {
                &&& all.len() == 1 + rest.len()
                &&& all[0] == s.subrange(i, j)
                &&& forall|k: int| 0 <= k < rest.len() ==> #[trigger] rest[k] == all[1 + k]
            }
        }),
{
    bytelevel::chunk_end_bounds(s, i);
    let j = bytelevel::chunk_end(s, i);
    let all = bytelevel::chunks_from(s, i, digits);
    let rest = bytelevel::chunks_from(s, j, digits);
    if digits && bytelevel::at_numbers(s, i) {
        let front = bytelevel::singles(s.subrange(i, j));
        assert(all == front + rest);
    } else {
        assert(all == seq![s.subrange(i, j)] + rest);
    }
}

impl BpeModel {
    /// The ids have tokens, and none is skipped or ends decoding.
    pub open spec fn shows(self, tokens: Seq<u32>) -> bool {
        forall|i: int|
            0 <= i < tokens.len() ==> {
                &&& self.pieces.contains_key(#[trigger] tokens[i])
                &&& (self.config.bos_token is Some ==> tokens[i] != self.config.bos_token.unwrap())
                &&& (self.config.eos_token is Some ==> tokens[i] != self.config.eos_token.unwrap())
                &&& tokens[i] < u32::MAX
            }
    }

    /// Decoding goes from token to token: ids after others add their bytes behind those, the mark
    /// of a beginning adds nothing, what stands behind the mark of an end does not count, and an id
    /// that has no token is named as an error.
    pub proof fn decoding_goes_from_token_to_token(self, front: Seq<u32>, rest: Seq<u32>, id: u32)
        requires
            self.shows(front),
        ensures
            self.spelled(front) is Ok,
            self.spelled(rest) matches Ok(b) ==> self.spelled(front + rest) == Ok::<Seq<u8>, u32>(self.spelled(front)->Ok_0 + b),
            self.spelled(rest) matches Err(t) ==> self.spelled(front + rest) == Err::<Seq<u8>, u32>(t),
            self.config.bos_token == Some(id) ==> self.spelled(seq![id] + rest) == self.spelled(rest),
            self.config.eos_token == Some(id) && self.config.bos_token != Some(id) && id < u32::MAX ==> self.spelled(front + (seq![id] + rest)) == self.spelled(
                front,
            ),
            !self.pieces.contains_key(id) && self.config.bos_token != Some(id) && self.config.eos_token != Some(id) && id < u32::MAX ==> self.spelled(
                front + (seq![id] + rest),
            ) == Err::<Seq<u8>, u32>(id),
            self.pieces.contains_key(id) && self.shows(seq![id]) ==> self.spelled(seq![id]) == Ok::<Seq<u8>, u32>(self.piece_bytes(self.pieces[id])),
        decreases front.len(),
    {
        let marked = seq![id] + rest;
        assert(marked.drop_first() =~= rest);
        assert(marked[0] == id);
        assert(seq![id].drop_first() =~= Seq::<u32>::empty());
        assert(self.spelled(Seq::<u32>::empty()) == Ok::<Seq<u8>, u32>(Seq::empty()));
        if self.shows(seq![id]) {
            assert(self.pieces.contains_key(seq![id][0]));
            let own = if self.pieces.contains_key(id) {
                self.piece_bytes(self.pieces[id])
            } else {
                Seq::empty()
            };
            assert(own + Seq::<u8>::empty() =~= own);
        }
        if front.len() == 0 {
            assert(front + rest =~= rest);
            assert(front + marked =~= marked);
            if let Ok(b) = self.spelled(rest) {
                assert(Seq::<u8>::empty() + b =~= b);
            }
        } else {
            let less = front.drop_first();
            assert(self.pieces.contains_key(front[0]));
            assert forall|i: int| 0 <= i < less.len() implies {
                &&& self.pieces.contains_key(#[trigger] less[i])
                &&& (self.config.bos_token is Some ==> less[i] != self.config.bos_token.unwrap())
                &&& (self.config.eos_token is Some ==> less[i] != self.config.eos_token.unwrap())
                &&& less[i] < u32::MAX
            } by {
                assert(less[i] == front[i + 1]);
            }
            self.decoding_goes_from_token_to_token(less, rest, id);
            assert((front + rest).drop_first() =~= less + rest);
            assert((front + marked).drop_first() =~= less + marked);
            assert((front + rest)[0] == front[0] && (front + marked)[0] == front[0]);
            let own = self.piece_bytes(self.pieces[front[0]]);
            if let Ok(b) = self.spelled(rest) {
                let mid = self.spelled(less)->Ok_0;
                assert(own + (mid + b) =~= (own + mid) + b);
            }
        }
    }

    /// The bytes of a token are those of its characters, in their order: the bytes that they stand
    /// for where tokens are written byte by byte, and else those of their own code.
    pub proof fn token_is_spelled_by_its_characters(self, s: Seq<char>, b: u8, c: char)
        ensures
            self.piece_bytes(Seq::empty()).len() == 0,
            self.config.byte_level ==> self.piece_bytes(s.push(bytelevel::byte_char(b))) == self.piece_bytes(s).push(b),
            !self.config.byte_level ==> self.piece_bytes(s.push(c)) == self.piece_bytes(s) + vstd::utf8::encode_utf8(seq![c]),
    {
        let d = bytelevel::byte_char(b);
        bytelevel::byte_found_again(b);
        assert(s.push(d).drop_last() =~= s);
        assert(s.push(c).drop_last() =~= s);
        assert(self.piece_bytes(s) + seq![b] =~= self.piece_bytes(s).push(b));
    }
}

impl BpeModel {
    /// The words of a text are the stretches between separators; or, where it is written byte by
    /// byte, its chunks, each with a character for every byte.
    pub proof fn words_are_chunks(self, s: Seq<char>)
        ensures
            !self.config.byte_level ==> self.words(s) == pretokens::words_of(s),
            self.config.byte_level ==> ({
                let chunks = bytelevel::chunks_from(s, 0, self.config.digits_individual);
                &&& self.words(s).len() == chunks.len()
                &&& forall|i: int| 0 <= i < chunks.len() ==> (#[trigger] self.words(s)[i]).len() == vstd::utf8::encode_utf8(chunks[i]).len()
                &&& forall|i: int, k: int|
                    0 <= i < chunks.len() && 0 <= k < vstd::utf8::encode_utf8(chunks[i]).len() ==> bytelevel::char_byte(#[trigger] self.words(s)[i][k])
                        == Some(vstd::utf8::encode_utf8(chunks[i])[k])
            }),
    {
        let chunks = bytelevel::chunks_from(s, 0, self.config.digits_individual);
        if self.config.byte_level {
            assert forall|i: int, k: int| 0 <= i < chunks.len() && 0 <= k < vstd::utf8::encode_utf8(chunks[i]).len() implies bytelevel::char_byte(
                #[trigger] self.words(s)[i][k],
            ) == Some(vstd::utf8::encode_utf8(chunks[i])[k]) by {
                bytelevel::byte_found_again(vstd::utf8::encode_utf8(chunks[i])[k]);
            }
        }
    }
}

/// A listed token has the id that it is listed with, unless it is listed again; a token that is not
/// listed has none.
pub proof fn listed_tokens_have_their_ids(pairs: Seq<(Seq<char>, u32)>, i: int, t: Seq<char>)
    requires
        0 <= i < pairs.len(),
        forall|j: int| i < j < pairs.len() ==> (#[trigger] pairs[j]).0 != pairs[i].0,
    ensures
        bpe::vocab_from(pairs).contains_key(pairs[i].0),
        bpe::vocab_from(pairs)[pairs[i].0] == pairs[i].1,
        (forall|j: int| 0 <= j < pairs.len() ==> (#[trigger] pairs[j]).0 != t) ==> !bpe::vocab_from(pairs).contains_key(t),
    decreases pairs.len(),
{
    let rest = pairs.drop_last();
    unlisted_has_no_id(pairs, t);
    if i < pairs.len() - 1 {
        assert forall|j: int| i < j < rest.len() implies (#[trigger] rest[j]).0 != rest[i].0 by {
            assert(pairs[j].0 != pairs[i].0);
        }
        listed_tokens_have_their_ids(rest, i, t);
        assert(pairs[pairs.len() - 1].0 != pairs[i].0);
    }
}

/// A token that is not listed has no id.
proof fn unlisted_has_no_id(pairs: Seq<(Seq<char>, u32)>, t: Seq<char>)
    ensures
        (forall|j: int| 0 <= j < pairs.len() ==> (#[trigger] pairs[j]).0 != t) ==> !bpe::vocab_from(pairs).contains_key(t),
    decreases pairs.len(),
{
    if pairs.len() > 0 && forall|j: int| 0 <= j < pairs.len() ==> (#[trigger] pairs[j]).0 != t {
        let rest = pairs.drop_last();
        assert forall|j: int| 0 <= j < rest.len() implies (#[trigger] rest[j]).0 != t by {
            assert(pairs[j].0 != t);
        }
        unlisted_has_no_id(rest, t);
        assert(pairs[pairs.len() - 1].0 != t);
    }
}

} // verus!
