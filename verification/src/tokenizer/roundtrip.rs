//! Decoding undoes encoding.
use super::bpe;
use super::bpe::BpeModel;
use super::bytelevel;
use super::merges;
use super::pretokens;
use vstd::prelude::*;
use vstd::utf8;

verus! {

/// The bytes of a text after another.
proof fn utf8_joins(a: Seq<char>, b: Seq<char>)
    ensures
        utf8::encode_utf8(a + b) == utf8::encode_utf8(a) + utf8::encode_utf8(b),
    decreases a.len(),
{
    if a.len() == 0 {
        assert(a + b =~= b);
        assert(utf8::encode_utf8(a) + utf8::encode_utf8(b) =~= utf8::encode_utf8(b));
    } else {
        utf8_joins(a.drop_first(), b);
        assert((a + b).drop_first() =~= a.drop_first() + b);
        assert((a + b)[0] == a[0]);
        assert(utf8::encode_utf8(a + b) =~= utf8::encode_utf8(a) + utf8::encode_utf8(b));
    }
}

impl BpeModel {
    /// Every token can be told from its id, and none has the id of a mark.
    pub open spec fn exact(self) -> bool {
        &&& bpe::consistent(self.vocab, self.pieces)
        &&& forall|a: Seq<char>, b: Seq<char>|
            #[trigger] self.vocab.contains_key(a) && #[trigger] self.vocab.contains_key(b) && self.vocab[a] == self.vocab[b] ==> a == b
        &&& forall|t: Seq<char>|
            #[trigger] self.vocab.contains_key(t) ==> self.vocab[t] != self.skipped() && self.vocab[t] != self.ending()
    }

    /// Whatever a text is written with has a token of its own: each byte, or each character.
    pub open spec fn covers(self, s: Seq<char>) -> bool {
        if self.config.byte_level {
            forall|b: u8| self.vocab.contains_key(seq![#[trigger] bytelevel::byte_char(b)])
        } else {
            self.has_chars(s)
        }
    }

    /// Each character of a text is a token.
    pub open spec fn has_chars(self, s: Seq<char>) -> bool {
        forall|i: int| 0 <= i < s.len() ==> self.vocab.contains_key(seq![#[trigger] s[i]])
    }

    /// The ids are those of tokens, and none is that of a mark.
    spec fn plain(self, tokens: Seq<u32>) -> bool {
        forall|i: int|
            0 <= i < tokens.len() ==> self.pieces.contains_key(#[trigger] tokens[i]) && tokens[i] != self.skipped() && tokens[i]
                != self.ending()
    }

    /// Ids spell a text.
    spec fn spell(self, tokens: Seq<u32>, s: Seq<char>) -> bool {
        self.plain(tokens) && self.spelled(tokens) == Ok::<Seq<u8>, u32>(self.piece_bytes(s))
    }

    proof fn bytes_join(self, a: Seq<char>, b: Seq<char>)
        ensures
            self.piece_bytes(a + b) == self.piece_bytes(a) + self.piece_bytes(b),
        decreases b.len(),
    {
        if b.len() == 0 {
            assert(a + b =~= a);
            assert(self.piece_bytes(a) + self.piece_bytes(b) =~= self.piece_bytes(a));
        } else {
            self.bytes_join(a, b.drop_last());
            assert((a + b).drop_last() =~= a + b.drop_last());
            assert(self.piece_bytes(a + b) =~= self.piece_bytes(a) + self.piece_bytes(b));
        }
    }

    proof fn spelled_joins(self, a: Seq<u32>, b: Seq<u32>)
        requires
            self.plain(a),
        ensures
            match (self.spelled(a), self.spelled(b)) {
                (Ok(x), Ok(y)) => self.spelled(a + b) == Ok::<Seq<u8>, u32>(x + y),
                (Ok(_), Err(t)) => self.spelled(a + b) == Err::<Seq<u8>, u32>(t),
                (Err(_), _) => false,
            },
        decreases a.len(),
    {
        if a.len() == 0 {
            assert(a + b =~= b);
            match self.spelled(b) {
                Ok(y) => {
                    assert(Seq::<u8>::empty() + y =~= y);
                },
                Err(_) => {},
            }
        } else {
            let rest = a.drop_first();
            assert(self.plain(rest)) by {
                assert forall|i: int| 0 <= i < rest.len() implies self.pieces.contains_key(#[trigger] rest[i]) && rest[i]
                    != self.skipped() && rest[i] != self.ending() by {
                    assert(rest[i] == a[i + 1]);
                }
            }
            self.spelled_joins(rest, b);
            assert((a + b).drop_first() =~= rest + b);
            assert((a + b)[0] == a[0]);
            let first = self.piece_bytes(self.pieces[a[0]]);
            match (self.spelled(rest), self.spelled(b)) {
                (Ok(x), Ok(y)) => {
                    assert(first + (x + y) =~= (first + x) + y);
                },
                _ => {},
            }
        }
    }

    proof fn spell_joins(self, a: Seq<u32>, s: Seq<char>, b: Seq<u32>, t: Seq<char>)
        requires
            self.spell(a, s),
            self.spell(b, t),
        ensures
            self.spell(a + b, s + t),
    {
        self.spelled_joins(a, b);
        self.bytes_join(s, t);
        assert forall|i: int| 0 <= i < (a + b).len() implies self.pieces.contains_key(#[trigger] (a + b)[i]) && (a + b)[i]
            != self.skipped() && (a + b)[i] != self.ending() by {
            if i < a.len() {
                assert((a + b)[i] == a[i]);
            } else {
                assert((a + b)[i] == b[i - a.len()]);
            }
        }
    }

    proof fn nothing_spells(self)
        ensures
            self.spell(Seq::empty(), Seq::empty()),
    {
    }

    proof fn token_spells(self, t: Seq<char>)
        requires
            self.exact(),
            self.vocab.contains_key(t),
        ensures
            self.spell(seq![self.vocab[t]], t),
    {
        let id = self.vocab[t];
        assert(self.pieces.contains_key(id));
        assert(self.vocab.contains_key(self.pieces[id]));
        assert(self.pieces[id] == t);
        assert(seq![id].drop_first() =~= Seq::<u32>::empty());
        assert(self.spelled(Seq::<u32>::empty()) == Ok::<Seq<u8>, u32>(Seq::empty()));
        assert(self.piece_bytes(t) + Seq::<u8>::empty() =~= self.piece_bytes(t));
    }

    proof fn chars_spell(self, s: Seq<char>)
        requires
            self.exact(),
            self.has_chars(s),
        ensures
            self.spell(self.chars_ids(s), s),
        decreases s.len(),
    {
        if s.len() == 0 {
            assert(s =~= Seq::<char>::empty());
            self.nothing_spells();
        } else {
            let head = s.drop_last();
            assert(self.has_chars(head)) by {
                assert forall|i: int| 0 <= i < head.len() implies self.vocab.contains_key(seq![#[trigger] head[i]]) by {
                    assert(head[i] == s[i]);
                }
            }
            self.chars_spell(head);
            assert(self.vocab.contains_key(seq![s[s.len() - 1]]));
            self.token_spells(seq![s.last()]);
            self.spell_joins(self.chars_ids(head), head, self.char_ids(s.last()), seq![s.last()]);
            assert(head + seq![s.last()] =~= s);
        }
    }

    proof fn parts_spell(self, parts: Seq<Seq<char>>)
        requires
            self.exact(),
            self.has_chars(pretokens::flat(parts)),
        ensures
            self.spell(self.parts_ids(parts), pretokens::flat(parts)),
        decreases parts.len(),
    {
        if parts.len() == 0 {
            self.nothing_spells();
        } else {
            let head = parts.drop_last();
            let last = parts.last();
            let s = pretokens::flat(parts);
            let front = pretokens::flat(head);
            assert(self.has_chars(front)) by {
                assert forall|i: int| 0 <= i < front.len() implies self.vocab.contains_key(seq![#[trigger] front[i]]) by {
                    assert(s[i] == front[i]);
                }
            }
            assert(self.has_chars(last)) by {
                assert forall|i: int| 0 <= i < last.len() implies self.vocab.contains_key(seq![#[trigger] last[i]]) by {
                    assert(s[front.len() + i] == last[i]);
                }
            }
            self.parts_spell(head);
            if self.vocab.contains_key(last) {
                self.token_spells(last);
            } else {
                self.chars_spell(last);
            }
            self.spell_joins(self.parts_ids(head), front, self.part_ids(last), last);
        }
    }

    proof fn words_spell(self, words: Seq<Seq<char>>)
        requires
            self.exact(),
            self.has_chars(pretokens::flat(words)),
        ensures
            self.spell(self.words_ids(words), pretokens::flat(words)),
        decreases words.len(),
    {
        if words.len() == 0 {
            self.nothing_spells();
        } else {
            let head = words.drop_last();
            let last = words.last();
            let s = pretokens::flat(words);
            let front = pretokens::flat(head);
            assert(self.has_chars(front)) by {
                assert forall|i: int| 0 <= i < front.len() implies self.vocab.contains_key(seq![#[trigger] front[i]]) by {
                    assert(s[i] == front[i]);
                }
            }
            assert(self.has_chars(last)) by {
                assert forall|i: int| 0 <= i < last.len() implies self.vocab.contains_key(seq![#[trigger] last[i]]) by {
                    assert(s[front.len() + i] == last[i]);
                }
            }
            self.words_spell(head);
            merges::merged_keeps_text(self.merges, bytelevel::singles(last));
            bytelevel::singles_keep(last);
            self.parts_spell(merges::merged(self.merges, bytelevel::singles(last)));
            self.spell_joins(self.words_ids(head), front, self.word_ids(last), last);
        }
    }

    /// Without byte-level writing, the bytes of a text are its own.
    proof fn own_bytes(self, s: Seq<char>)
        requires
            !self.config.byte_level,
        ensures
            self.piece_bytes(s) == utf8::encode_utf8(s),
        decreases s.len(),
    {
        if s.len() > 0 {
            self.own_bytes(s.drop_last());
            utf8_joins(s.drop_last(), seq![s.last()]);
            assert(s.drop_last() + seq![s.last()] =~= s);
        } else {
            assert(self.piece_bytes(s) =~= utf8::encode_utf8(s));
        }
    }

    /// With byte-level writing, bytes are read back from their characters.
    proof fn written_bytes(self, bytes: Seq<u8>)
        requires
            self.config.byte_level,
        ensures
            self.piece_bytes(bytelevel::byte_text(bytes)) == bytes,
        decreases bytes.len(),
    {
        if bytes.len() > 0 {
            let head = bytes.drop_last();
            self.written_bytes(head);
            bytelevel::byte_found_again(bytes.last());
            assert(bytelevel::byte_text(bytes).drop_last() =~= bytelevel::byte_text(head));
            assert(head + seq![bytes.last()] =~= bytes);
        } else {
            assert(self.piece_bytes(bytelevel::byte_text(bytes)) =~= bytes);
        }
    }

    /// Decoding undoes encoding: a text whose bytes, or whose characters, all have tokens comes
    /// back from its ids.
    pub proof fn decode_undoes_encode(self, s: Seq<char>, r: Result<Seq<char>, Seq<char>>)
        requires
            self.exact(),
            self.covers(s),
            self.decodes(self.encoded(s), r),
        ensures
            r == Ok::<Seq<char>, Seq<char>>(s),
    {
        let words = self.words(s);
        if self.config.byte_level {
            let chunks = bytelevel::chunks_from(s, 0, self.config.digits_individual);
            bytelevel::chunks_keep_text(s, 0, self.config.digits_individual);
            assert(s.subrange(0, s.len() as int) =~= s);
            written_keeps_bytes(chunks);
            let all = pretokens::flat(words);
            assert(self.has_chars(all)) by {
                assert forall|i: int| 0 <= i < all.len() implies self.vocab.contains_key(seq![#[trigger] all[i]]) by {
                    assert(all[i] == bytelevel::byte_char(utf8::encode_utf8(s)[i]));
                }
            }
            self.written_bytes(utf8::encode_utf8(s));
        } else {
            pretokens::words_keep_text(s);
            self.own_bytes(s);
        }
        self.words_spell(words);
        utf8::encode_utf8_valid_utf8(s);
        utf8::encode_utf8_decode_utf8(s);
    }

    /// Marks around a text do not show: decoding the marked ids gives the text too.
    pub proof fn marks_do_not_show(self, s: Seq<char>, add_bos: bool, add_eos: bool, r: Result<Seq<char>, Seq<char>>)
        requires
            self.exact(),
            self.covers(s),
            self.decodes(bpe::mark(self.config.bos_token, add_bos) + self.encoded(s) + bpe::mark(self.config.eos_token, add_eos), r),
        ensures
            r == Ok::<Seq<char>, Seq<char>>(s),
    {
        let body = self.encoded(s);
        let before = bpe::mark(self.config.bos_token, add_bos);
        let after = bpe::mark(self.config.eos_token, add_eos);
        let marked = before + body + after;
        let tail = body + after;
        self.encoding_spells(s);
        self.spelled_joins(body, after);
        let x = self.spelled(body)->Ok_0;
        assert(self.spelled(after) == Ok::<Seq<u8>, u32>(Seq::empty())) by {
            if after.len() > 0 {
                assert(after[0] == self.ending());
                assert(after.drop_first() =~= Seq::<u32>::empty());
                assert(self.spelled(Seq::<u32>::empty()) == Ok::<Seq<u8>, u32>(Seq::empty()));
            }
        }
        assert(x + Seq::<u8>::empty() =~= x);
        assert(self.spelled(tail) == self.spelled(body));
        if before.len() > 0 {
            assert(marked[0] == self.skipped());
            assert(marked.drop_first() =~= tail);
        } else {
            assert(marked =~= tail);
        }
        self.decode_undoes_encode(s, r);
    }

    /// The ids of a text spell its words.
    proof fn encoding_spells(self, s: Seq<char>)
        requires
            self.exact(),
            self.covers(s),
        ensures
            self.plain(self.encoded(s)),
            self.spelled(self.encoded(s)) is Ok,
    {
        let words = self.words(s);
        if self.config.byte_level {
            let chunks = bytelevel::chunks_from(s, 0, self.config.digits_individual);
            bytelevel::chunks_keep_text(s, 0, self.config.digits_individual);
            written_keeps_bytes(chunks);
            let all = pretokens::flat(words);
            assert(self.has_chars(all)) by {
                assert forall|i: int| 0 <= i < all.len() implies self.vocab.contains_key(seq![#[trigger] all[i]]) by {
                    assert(all[i] == bytelevel::byte_char(utf8::encode_utf8(pretokens::flat(chunks))[i]));
                }
            }
        } else {
            pretokens::words_keep_text(s);
        }
        self.words_spell(words);
    }
}

/// Chunks that are written byte by byte are, one after another, the bytes of the text.
proof fn written_keeps_bytes(chunks: Seq<Seq<char>>)
    ensures
        pretokens::flat(bytelevel::written(chunks)) == bytelevel::byte_text(utf8::encode_utf8(pretokens::flat(chunks))),
    decreases chunks.len(),
{
    let w = bytelevel::written(chunks);
    if chunks.len() == 0 {
        assert(pretokens::flat(w) =~= bytelevel::byte_text(utf8::encode_utf8(pretokens::flat(chunks))));
    } else {
        let head = chunks.drop_last();
        written_keeps_bytes(head);
        assert(w.drop_last() =~= bytelevel::written(head));
        utf8_joins(pretokens::flat(head), chunks.last());
        assert(pretokens::flat(w) =~= bytelevel::byte_text(utf8::encode_utf8(pretokens::flat(chunks))));
    }
}

} // verus!
