//! What tokenizer files list.
use super::bpe;
use super::bpe::BpeTokenizer;
use super::load;
use super::sentencepiece;
use super::sentencepiece::SentencePieceType;
use crate::json::JsonModel;
use crate::runtime::filed;
use crate::text;
use vstd::prelude::*;

verus! {

/// A number in bytes of seven bits, the lowest first; all but the last are marked.
pub open spec fn seven_bits(v: nat) -> Seq<u8>
    decreases v,
{
    if v < 128 {
        seq![v as u8]
    } else {
        seq![(v % 128 + 128) as u8] + seven_bits(v / 128)
    }
}

spec fn limit(n: nat) -> nat
    decreases n,
{
    if n == 0 {
        1
    } else {
        128 * limit((n - 1) as nat)
    }
}

proof fn seven_bits_len(v: nat, n: nat)
    requires
        v < limit(n),
        n > 0,
    ensures
        0 < seven_bits(v).len() <= n,
    decreases n,
{
    if v >= 128 {
        if n == 1 {
            assert(limit(1) == 128 * limit(0));
        }
        seven_bits_len(v / 128, (n - 1) as nat);
    }
}

proof fn number_from_is_read_back(data: Seq<u8>, pos: int, v: nat, k: nat)
    requires
        filed::stands(data, pos, seven_bits(v)),
        k + seven_bits(v).len() <= 10,
    ensures
        sentencepiece::varint_from(data, pos, k) == Ok::<(int, int), Seq<char>>((v as int, pos + seven_bits(v).len())),
        seven_bits(v).len() > 0,
    decreases v,
{
    let bytes = seven_bits(v);
    filed::stands_as_part(data, pos, bytes);
    assert(data.subrange(pos, pos + bytes.len())[0] == bytes[0]);
    if v >= 128 {
        let head = seq![(v % 128 + 128) as u8];
        let rest = seven_bits(v / 128);
        filed::stands_in_two(data, pos, head, rest);
        number_from_is_read_back(data, pos + 1, v / 128, k + 1);
    }
}

/// A number that stands in the data is read as it is.
pub proof fn number_is_read_back(data: Seq<u8>, pos: int, v: u64)
    requires
        filed::stands(data, pos, seven_bits(v as nat)),
    ensures
        sentencepiece::varint_at(data, pos) == Ok::<(u64, int), Seq<char>>((v, pos + seven_bits(v as nat).len())),
        seven_bits(v as nat).len() > 0,
{
    reveal_with_fuel(limit, 11);
    seven_bits_len(v as nat, 10);
    number_from_is_read_back(data, pos, v as nat, 0);
}

/// The number that stands for a kind of token.
pub open spec fn kind_number(k: SentencePieceType) -> nat {
    match k {
        SentencePieceType::Normal => 1,
        SentencePieceType::Unknown => 2,
        SentencePieceType::Control => 3,
        SentencePieceType::UserDefined => 4,
        SentencePieceType::Unused => 5,
        SentencePieceType::Byte => 6,
    }
}

/// A token: its text, its score and the number of its kind, each behind the number of the field and
/// of its form.
pub open spec fn token_bytes(s: Seq<char>, score: Seq<u8>, kind: SentencePieceType) -> Seq<u8> {
    seven_bits(10) + seven_bits(vstd::utf8::encode_utf8(s).len()) + vstd::utf8::encode_utf8(s) + seven_bits(21) + score + seven_bits(24)
        + seven_bits(kind_number(kind))
}

/// A token is read as it is, whatever its score.
#[verifier::rlimit(30)]
pub proof fn token_is_read_back(s: Seq<char>, score: Seq<u8>, kind: SentencePieceType)
    requires
        vstd::utf8::encode_utf8(s).len() <= u64::MAX,
        score.len() == 4,
    ensures
        sentencepiece::piece_of(token_bytes(s, score, kind)) == Ok::<(Seq<char>, SentencePieceType), Seq<char>>((s, kind)),
{
    let data = token_bytes(s, score, kind);
    let coded = vstd::utf8::encode_utf8(s);
    let a = seven_bits(10);
    let b = seven_bits(coded.len());
    let d = seven_bits(21);
    let f = seven_bits(24);
    let g = seven_bits(kind_number(kind));
    whole_stands(data);
    filed::stands_in_two(data, 0, a + b + coded + d + score + f, g);
    filed::stands_in_two(data, 0, a + b + coded + d + score, f);
    filed::stands_in_two(data, 0, a + b + coded + d, score);
    filed::stands_in_two(data, 0, a + b + coded, d);
    filed::stands_in_two(data, 0, a + b, coded);
    filed::stands_in_two(data, 0, a, b);
    let p1 = a.len() as int;
    let p2 = p1 + b.len();
    let p3 = p2 + coded.len();
    let p4 = p3 + d.len();
    let p5 = p4 + 4;
    let p6 = p5 + f.len();
    number_is_read_back(data, 0, 10);
    number_is_read_back(data, p1, coded.len() as u64);
    number_is_read_back(data, p3, 21);
    number_is_read_back(data, p5, 24);
    number_is_read_back(data, p6, kind_number(kind) as u64);
    filed::stands_as_part(data, p2, coded);
    text::encoded_reads_back(s);
    let n = SentencePieceType::Normal;
    assert(sentencepiece::type_of(kind_number(kind) as u64) == kind);
    assert(sentencepiece::piece_from(data, data.len() as int, s, kind) == Ok::<(Seq<char>, SentencePieceType), Seq<char>>((s, kind)));
    assert(sentencepiece::piece_from(data, p5, s, n) == sentencepiece::piece_from(data, data.len() as int, s, kind));
    assert(sentencepiece::piece_from(data, p3, s, n) == sentencepiece::piece_from(data, p5, s, n));
    assert(sentencepiece::piece_from(data, 0, Seq::empty(), n) == sentencepiece::piece_from(data, p3, s, n));
}

proof fn whole_stands(data: Seq<u8>)
    ensures
        filed::stands(data, 0, data),
{
    reveal(filed::stands);
}

/// A file that lists tokens, each with a score.
pub open spec fn file_bytes(list: Seq<(Seq<char>, Seq<u8>, SentencePieceType)>) -> Seq<u8>
    decreases list.len(),
{
    if list.len() == 0 {
        Seq::empty()
    } else {
        let t = token_bytes(list[0].0, list[0].1, list[0].2);
        seven_bits(10) + seven_bits(t.len()) + t + file_bytes(list.drop_first())
    }
}

/// The texts and kinds of tokens.
pub open spec fn without_scores(list: Seq<(Seq<char>, Seq<u8>, SentencePieceType)>) -> Seq<(Seq<char>, SentencePieceType)> {
    Seq::new(list.len(), |i: int| (list[i].0, list[i].2))
}

/// The tokens of a file are read as they are, in their order.
pub proof fn tokens_are_read_back(list: Seq<(Seq<char>, Seq<u8>, SentencePieceType)>)
    requires
        forall|i: int| 0 <= i < list.len() ==> (#[trigger] list[i]).1.len() == 4,
        file_bytes(list).len() <= u64::MAX,
    ensures
        sentencepiece::pieces_from(file_bytes(list), 0, Seq::empty()) == Ok::<Seq<(Seq<char>, SentencePieceType)>, Seq<char>>(without_scores(list)),
{
    let data = file_bytes(list);
    whole_stands(data);
    tokens_from_are_read_back(data, 0, list, Seq::empty());
    assert(Seq::empty() + without_scores(list) =~= without_scores(list));
}

proof fn tokens_from_are_read_back(
    data: Seq<u8>,
    pos: int,
    list: Seq<(Seq<char>, Seq<u8>, SentencePieceType)>,
    done: Seq<(Seq<char>, SentencePieceType)>,
)
    requires
        forall|i: int| 0 <= i < list.len() ==> (#[trigger] list[i]).1.len() == 4,
        filed::stands(data, pos, file_bytes(list)),
        pos + file_bytes(list).len() == data.len() <= u64::MAX,
    ensures
        sentencepiece::pieces_from(data, pos, done) == Ok::<Seq<(Seq<char>, SentencePieceType)>, Seq<char>>(done + without_scores(list)),
    decreases list.len(),
{
    if list.len() == 0 {
        assert(done + without_scores(list) =~= done);
    } else {
        let (s, score, kind) = list[0];
        let rest = list.drop_first();
        let t = token_bytes(s, score, kind);
        let a = seven_bits(10);
        let b = seven_bits(t.len());
        let coded = vstd::utf8::encode_utf8(s);
        filed::stands_in_two(data, pos, a + b + t, file_bytes(rest));
        filed::stands_in_two(data, pos, a + b, t);
        filed::stands_in_two(data, pos, a, b);
        let q = pos + a.len() + b.len();
        filed::stands_as_part(data, q, t);
        assert(coded.len() <= t.len());
        number_is_read_back(data, pos, 10);
        number_is_read_back(data, pos + a.len(), t.len() as u64);
        token_is_read_back(s, score, kind);
        assert forall|i: int| 0 <= i < rest.len() implies (#[trigger] rest[i]).1.len() == 4 by {
            assert(rest[i] == list[i + 1]);
        }
        let more = done.push((s, kind));
        tokens_from_are_read_back(data, q + t.len(), rest, more);
        assert(more + without_scores(rest) =~= done + without_scores(list));
    }
}

/// Other parts of a file are passed over.
pub proof fn other_parts_are_passed_over(data: Seq<u8>, pos: int, field: u64, part: Seq<u8>, done: Seq<(Seq<char>, SentencePieceType)>)
    requires
        1 < field < 0x1000_0000,
        part.len() <= u64::MAX,
        filed::stands(data, pos, seven_bits((8 * field + 2) as nat) + seven_bits(part.len()) + part),
    ensures
        sentencepiece::pieces_from(data, pos, done) == sentencepiece::pieces_from(
            data,
            pos + seven_bits((8 * field + 2) as nat).len() + seven_bits(part.len()).len() + part.len(),
            done,
        ),
{
    let a = seven_bits((8 * field + 2) as nat);
    let b = seven_bits(part.len());
    filed::stands_in_two(data, pos, a + b, part);
    filed::stands_in_two(data, pos, a, b);
    number_is_read_back(data, pos, (8 * field + 2) as u64);
    number_is_read_back(data, pos + a.len(), part.len() as u64);
}

/// A token has its place for an id; the last token of a text counts.
pub proof fn tokens_have_their_places(pieces: Seq<(Seq<char>, SentencePieceType)>, t: BpeTokenizer, i: int)
    requires
        sentencepiece::made_of(pieces, t),
        0 <= i < pieces.len() <= u32::MAX,
        forall|j: int| i < j < pieces.len() ==> (#[trigger] pieces[j]).0 != pieces[i].0,
    ensures
        t@.vocab.contains_key(pieces[i].0),
        t@.vocab[pieces[i].0] == i,
        t@.merges.len() == 0,
        !t@.config.byte_level,
        !t@.config.digits_individual,
{
    let list = sentencepiece::numbered(pieces);
    assert forall|j: int| i < j < list.len() implies (#[trigger] list[j]).0 != list[i].0 by {
        assert(pieces[j].0 != pieces[i].0);
    }
    last_listed_counts(list, i);
}

proof fn last_listed_counts(list: Seq<(Seq<char>, u32)>, i: int)
    requires
        0 <= i < list.len(),
        forall|j: int| i < j < list.len() ==> (#[trigger] list[j]).0 != list[i].0,
    ensures
        bpe::vocab_from(list).contains_key(list[i].0),
        bpe::vocab_from(list)[list[i].0] == list[i].1,
    decreases list.len(),
{
    if i < list.len() - 1 {
        let front = list.drop_last();
        assert(list[list.len() - 1].0 != list[i].0);
        assert forall|j: int| i < j < front.len() implies (#[trigger] front[j]).0 != front[i].0 by {
            assert(front[j] == list[j] && front[i] == list[i]);
        }
        last_listed_counts(front, i);
    }
}

/// The marks are found among the control tokens by their texts; later ones count.
pub proof fn marks_are_control_tokens(pieces: Seq<(Seq<char>, SentencePieceType)>, s: Seq<char>)
    requires
        pieces.len() < u32::MAX,
    ensures
        ({
            let before = sentencepiece::marks_of(pieces);
            let id = Some(pieces.len() as u32);
            let control = sentencepiece::marks_of(pieces.push((s, SentencePieceType::Control)));
            let normal = sentencepiece::marks_of(pieces.push((s, SentencePieceType::Normal)));
            let unknown = sentencepiece::marks_of(pieces.push((s, SentencePieceType::Unknown)));
            &&& s == "<s>"@ || s == "<BOS>"@ ==> control == (id, before.1, before.2)
            &&& s == "</s>"@ || s == "<EOS>"@ ==> control == (before.0, id, before.2)
            &&& s == "<unk>"@ ==> control == (before.0, before.1, id)
            &&& normal == before
            &&& before.2 is None ==> unknown == (before.0, before.1, id)
            &&& before.2 is Some ==> unknown == before
        }),
        sentencepiece::marks_of(Seq::empty()) == (None::<u32>, None::<u32>, None::<u32>),
{
    let c = pieces.push((s, SentencePieceType::Control));
    let n = pieces.push((s, SentencePieceType::Normal));
    let u = pieces.push((s, SentencePieceType::Unknown));
    assert(c.drop_last() =~= pieces);
    assert(n.drop_last() =~= pieces);
    assert(u.drop_last() =~= pieces);
    reveal_strlit("<s>");
    reveal_strlit("<BOS>");
    reveal_strlit("</s>");
    reveal_strlit("<EOS>");
    reveal_strlit("<unk>");
    assert("<s>"@.len() == 3 && "</s>"@.len() == 4 && "<BOS>"@.len() == 5 && "<EOS>"@.len() == 5 && "<unk>"@.len() == 5);
    assert("<BOS>"@[1] == 'B' && "<EOS>"@[1] == 'E' && "<unk>"@[1] == 'u');
}

/// A merge of a tokenizer file has a left part without spaces and a right part, with a space between
/// them; what has no space is no merge.
pub proof fn merges_have_a_space(left: Seq<char>, right: Seq<char>)
    requires
        forall|i: int| 0 <= i < left.len() ==> left[i] != ' ',
    ensures
        load::merge_parts(left.push(' ') + right) == Some((left, right)),
        load::merge_parts(left) is None,
{
    let whole = left.push(' ') + right;
    space_is_found(whole, left.len() as int, 0);
    space_is_found(left, left.len() as int, 0);
    assert(whole.take(left.len() as int) =~= left);
    assert(whole.skip(left.len() as int + 1) =~= right);
}

proof fn space_is_found(s: Seq<char>, n: int, i: int)
    requires
        0 <= i <= n <= s.len(),
        forall|j: int| 0 <= j < n ==> s[j] != ' ',
        n < s.len() ==> s[n] == ' ',
    ensures
        load::space_from(s, i) == n,
    decreases n - i,
{
    if i < n {
        space_is_found(s, n, i + 1);
    }
}

/// Merges keep their order; what is no text, or has no space, is passed over.
pub proof fn merges_keep_their_order(list: Seq<JsonModel>, left: Seq<char>, right: Seq<char>, v: JsonModel)
    requires
        forall|i: int| 0 <= i < left.len() ==> left[i] != ' ',
    ensures
        load::merges_in(list.push(JsonModel::Text(left.push(' ') + right))) == load::merges_in(list).push((left, right)),
        load::merges_in(list.push(JsonModel::Text(left))) == load::merges_in(list),
        !(v is Text) ==> load::merges_in(list.push(v)) == load::merges_in(list),
        load::merges_in(Seq::empty()).len() == 0,
{
    merges_have_a_space(left, right);
    assert(list.push(JsonModel::Text(left.push(' ') + right)).drop_last() =~= list);
    assert(list.push(JsonModel::Text(left)).drop_last() =~= list);
    assert(list.push(v).drop_last() =~= list);
}

/// Tokens keep their order and have the ids that the file tells; an id of more than 32 bits is
/// refused, and what has no id is passed over.
pub proof fn tokens_have_told_ids(list: Seq<(Seq<char>, JsonModel)>, before: Seq<(Seq<char>, u32)>, s: Seq<char>, n: u64, d: Option<u64>, v: JsonModel)
    requires
        load::tokens_in(list) == Ok::<Seq<(Seq<char>, u32)>, (u64, Seq<char>)>(before),
    ensures
        ({
            let more = load::tokens_in(list.push((s, JsonModel::Number { natural: Some(n), double: d })));
            &&& n <= u32::MAX ==> more == Ok::<Seq<(Seq<char>, u32)>, (u64, Seq<char>)>(before.push((s, n as u32)))
            &&& n > u32::MAX ==> more == Err::<Seq<(Seq<char>, u32)>, (u64, Seq<char>)>((n, s))
        }),
        !(v is Number) ==> load::tokens_in(list.push((s, v))) == load::tokens_in(list),
        load::tokens_in(Seq::empty()) == Ok::<Seq<(Seq<char>, u32)>, (u64, Seq<char>)>(Seq::empty()),
{
    assert(list.push((s, JsonModel::Number { natural: Some(n), double: d })).drop_last() =~= list);
    assert(list.push((s, v)).drop_last() =~= list);
}

/// A tokenizer file has the tokens and the merges of its model, and all that is wrong with it is
/// told.
pub proof fn file_has_tokens_and_merges(
    v: JsonModel,
    model: JsonModel,
    tokens: Seq<(Seq<char>, JsonModel)>,
    ids: Seq<(Seq<char>, u32)>,
    merges: Seq<JsonModel>,
    kind: Seq<char>,
)
    ensures
        v.field("model"@) is None ==> load::parts_of(v) == Err::<(Seq<(Seq<char>, u32)>, Seq<(Seq<char>, Seq<char>)>), Seq<char>>(
            "missing 'model' field"@,
        ),
        v.field("model"@) == Some(model) && model.field("type"@) == Some(JsonModel::Text(kind)) && kind != "BPE"@ ==> load::parts_of(v) == Err::<
            (Seq<(Seq<char>, u32)>, Seq<(Seq<char>, Seq<char>)>),
            Seq<char>,
        >("unsupported model type: "@ + kind),
        v.field("model"@) == Some(model) && (model.field("type"@) is None || model.field("type"@) == Some(JsonModel::Text("BPE"@))) ==> {
            &&& model.field("vocab"@) is None ==> load::parts_of(v) == Err::<(Seq<(Seq<char>, u32)>, Seq<(Seq<char>, Seq<char>)>), Seq<char>>(
                "missing 'model.vocab'"@,
            )
            &&& model.field("vocab"@) == Some(JsonModel::Object(tokens)) && load::tokens_in(tokens) == Ok::<
                Seq<(Seq<char>, u32)>,
                (u64, Seq<char>),
            >(ids) ==> {
                &&& model.field("merges"@) is None ==> load::parts_of(v) == Err::<
                    (Seq<(Seq<char>, u32)>, Seq<(Seq<char>, Seq<char>)>),
                    Seq<char>,
                >("missing 'model.merges'"@)
                &&& model.field("merges"@) == Some(JsonModel::List(merges)) ==> load::parts_of(v) == Ok::<
                    (Seq<(Seq<char>, u32)>, Seq<(Seq<char>, Seq<char>)>),
                    Seq<char>,
                >((ids, load::merges_in(merges)))
            }
        },
{
}

/// Of the added tokens that are special, the last ones with the texts of a start and an end are the
/// marks.
pub proof fn special_tokens_are_marks(list: Seq<JsonModel>, t: JsonModel, s: Seq<char>, n: u32, d: Option<u64>)
    requires
        t.field("content"@) == Some(JsonModel::Text(s)),
        t.field("id"@) == Some(JsonModel::Number { natural: Some(n as u64), double: d }),
    ensures
        ({
            let before = load::marks_in(list);
            let after = load::marks_in(list.push(t));
            let special = t.field("special"@) == Some(JsonModel::Bool(true));
            &&& special && (s == "<s>"@ || s == "[BOS]"@) ==> after == (Some(n), before.1)
            &&& special && (s == "</s>"@ || s == "[EOS]"@) ==> after == (before.0, Some(n))
            &&& !special ==> after == before
        }),
        load::marks_in(Seq::empty()) == (None::<u32>, None::<u32>),
{
    assert(list.push(t).drop_last() =~= list);
    reveal_strlit("<s>");
    reveal_strlit("[BOS]");
    reveal_strlit("</s>");
    reveal_strlit("[EOS]");
    assert("<s>"@.len() == 3 && "</s>"@.len() == 4 && "[BOS]"@.len() == 5 && "[EOS]"@.len() == 5);
    assert("[BOS]"@[1] == 'B' && "[EOS]"@[1] == 'E');
}

/// A file works byte by byte, or takes digits one by one, where one of its pre-tokenizers does, on
/// whatever level.
pub proof fn one_pretokenizer_is_enough(v: JsonModel, list: Seq<JsonModel>, i: int)
    requires
        v.field("pretokenizers"@) == Some(JsonModel::List(list)),
        0 <= i < list.len(),
    ensures
        load::flags_of(list[i]).0 ==> load::flags_of(v).0,
        load::flags_of(list[i]).1 ==> load::flags_of(v).1,
{
    one_of_a_list_is_enough(list, i);
}

proof fn one_of_a_list_is_enough(list: Seq<JsonModel>, i: int)
    requires
        0 <= i < list.len(),
    ensures
        load::flags_of(list[i]).0 ==> load::list_flags(list).0,
        load::flags_of(list[i]).1 ==> load::list_flags(list).1,
    decreases list.len(),
{
    if i < list.len() - 1 {
        assert(list.drop_last()[i] == list[i]);
        one_of_a_list_is_enough(list.drop_last(), i);
    }
}

/// A pre-tokenizer without others is told by its kind.
pub proof fn pretokenizers_are_told_by_kind(v: JsonModel, kind: Seq<char>)
    requires
        v.field("pretokenizers"@) is None,
        v.field("type"@) == Some(JsonModel::Text(kind)),
    ensures
        load::flags_of(v).0 <==> kind == "ByteLevel"@,
        load::flags_of(v).1 <==> kind == "Digits"@ && v.field("individual_digits"@) == Some(JsonModel::Bool(true)),
{
}

/// A tokenizer is what its file describes.
pub proof fn tokenizer_is_as_described(v: JsonModel, t: BpeTokenizer, node: JsonModel, list: Seq<JsonModel>)
    requires
        load::describes(v, t),
    ensures
        v.field("pre_tokenizer"@) == Some(node) ==> t@.config.byte_level == load::flags_of(node).0 && t@.config.digits_individual == load::flags_of(
            node,
        ).1,
        v.field("pre_tokenizer"@) is None ==> !t@.config.byte_level && !t@.config.digits_individual,
        v.field("added_tokens"@) == Some(JsonModel::List(list)) ==> t@.config.bos_token == load::marks_in(list).0 && t@.config.eos_token
            == load::marks_in(list).1,
        v.field("added_tokens"@) is None ==> t@.config.bos_token is None && t@.config.eos_token is None,
        t@.vocab.contains_key("<unk>"@) ==> t@.config.unk_token == Some(t@.vocab["<unk>"@]),
        !t@.vocab.contains_key("<unk>"@) ==> t@.config.unk_token is None,
        t@.config.vocab_size == t@.vocab.len(),
        load::parts_of(v) matches Ok((tokens, merges)) && t@.merges == merges && t@.vocab == bpe::vocab_from(tokens),
{
}

} // verus!
