//! Tokenizers out of SentencePiece files, which are protocol buffers.
use super::bpe;
use super::bpe::{BpeTokenizer, TokenizerConfig, TokenizerError};
use super::merges;
use crate::text;
use vstd::prelude::*;

verus! {

/// The number at a place, seven bits a byte, the lowest first; a byte of 128 or more is followed
/// by another, but no number takes more than ten bytes. This is the part from the byte `k` on.
pub open spec fn varint_from(data: Seq<u8>, pos: int, k: nat) -> Result<(int, int), Seq<char>>
    decreases 10 - k,
{
    if pos < 0 || pos >= data.len() {
        Err("truncated varint"@)
    } else if data[pos] < 128 {
        Ok((data[pos] as int, pos + 1))
    } else if k >= 9 {
        Err("varint too long"@)
    } else {
        match varint_from(data, pos + 1, k + 1) {
            Ok((v, end)) => Ok((data[pos] - 128 + 128 * v, end)),
            Err(m) => Err(m),
        }
    }
}

/// The number at a place, in 64 bits, with the place after it.
pub open spec fn varint_at(data: Seq<u8>, pos: int) -> Result<(u64, int), Seq<char>> {
    match varint_from(data, pos, 0) {
        Ok((v, end)) => Ok(((v % 0x1_0000_0000_0000_0000) as u64, end)),
        Err(m) => Err(m),
    }
}

proof fn varint_from_bounds(data: Seq<u8>, pos: int, k: nat)
    ensures
        varint_from(data, pos, k) matches Ok((v, end)) ==> pos < end <= data.len() && v >= 0,
    decreases 10 - k,
{
    if 0 <= pos < data.len() && data[pos] >= 128 && k < 9 {
        varint_from_bounds(data, pos + 1, k + 1);
    }
}

/// A number takes up bytes of the data.
pub proof fn varint_takes_bytes(data: Seq<u8>, pos: int)
    ensures
        varint_at(data, pos) matches Ok((_, end)) ==> pos < end <= data.len(),
{
    varint_from_bounds(data, pos, 0);
}

/// The place after a field of a kind that is passed over.
pub open spec fn skip_at(data: Seq<u8>, pos: int, wire: int) -> Result<int, Seq<char>> {
    if wire == 0 {
        match varint_at(data, pos) {
            Ok((_, end)) => Ok(end),
            Err(m) => Err(m),
        }
    } else if wire == 1 {
        if pos + 8 > data.len() {
            Err("truncated 64-bit field"@)
        } else {
            Ok(pos + 8)
        }
    } else if wire == 2 {
        match varint_at(data, pos) {
            Ok((n, p)) => if p + n > data.len() {
                Err("truncated length-delimited field"@)
            } else {
                Ok(p + n)
            },
            Err(m) => Err(m),
        }
    } else {
        if pos + 4 > data.len() {
            Err("truncated 32-bit field"@)
        } else {
            Ok(pos + 4)
        }
    }
}

/// A field that is passed over ends where it starts or later, inside the data.
pub proof fn skip_goes_on(data: Seq<u8>, pos: int, wire: int)
    ensures
        skip_at(data, pos, wire) matches Ok(end) ==> pos <= end <= data.len(),
{
    varint_takes_bytes(data, pos);
}

/// A kind of field that can be passed over.
pub open spec fn can_skip(wire: int) -> bool {
    wire == 0 || wire == 1 || wire == 2 || wire == 5
}

/// The kind of a token.
#[derive(Debug, Clone, Copy, PartialEq, Eq, Structural)]
pub enum SentencePieceType {
    Normal,
    Unknown,
    Control,
    UserDefined,
    Unused,
    Byte,
}

/// The kind that a number stands for; only its lower 32 bits count.
pub open spec fn type_of(v: u64) -> SentencePieceType {
    let code = v as int % 0x1_0000_0000;
    if code == 1 {
        SentencePieceType::Normal
    } else if code == 3 {
        SentencePieceType::Control
    } else if code == 4 {
        SentencePieceType::UserDefined
    } else if code == 5 {
        SentencePieceType::Unused
    } else if code == 6 {
        SentencePieceType::Byte
    } else {
        SentencePieceType::Unknown
    }
}

/// Finds the kind that a number stands for.
pub fn find_type(v: u64) -> (r: SentencePieceType)
    ensures
        r == type_of(v),
{
    match v % 0x1_0000_0000 {
        1 => SentencePieceType::Normal,
        3 => SentencePieceType::Control,
        4 => SentencePieceType::UserDefined,
        5 => SentencePieceType::Unused,
        6 => SentencePieceType::Byte,
        _ => SentencePieceType::Unknown,
    }
}

/// The text and the kind of a token: what the fields from a place on say, after those before.
pub open spec fn piece_from(data: Seq<u8>, pos: int, s: Seq<char>, kind: SentencePieceType) -> Result<
    (Seq<char>, SentencePieceType),
    Seq<char>,
>
    decreases data.len() - pos,
{
    proof {
        varint_takes_bytes(data, pos);
    }
    if pos >= data.len() {
        Ok((s, kind))
    } else {
        match varint_at(data, pos) {
            Err(m) => Err(m),
            Ok((tag, p)) => {
                let number = tag as int / 8;
                let wire = tag as int % 8;
                proof {
                    varint_takes_bytes(data, p);
                    skip_goes_on(data, p, wire);
                }
                if number == 1 && wire == 2 {
                    match varint_at(data, p) {
                        Err(m) => Err(m),
                        Ok((n, q)) => if q + n > data.len() {
                            Err("truncated piece string"@)
                        } else {
                            piece_from(data, q + n, text::read_as(data.subrange(q, q + n)), kind)
                        },
                    }
                } else if number == 2 && wire == 5 {
                    if p + 4 > data.len() {
                        Err("truncated score"@)
                    } else {
                        piece_from(data, p + 4, s, kind)
                    }
                } else if number == 3 && wire == 0 {
                    match varint_at(data, p) {
                        Err(m) => Err(m),
                        Ok((v, q)) => piece_from(data, q, s, type_of(v)),
                    }
                } else if can_skip(wire) {
                    match skip_at(data, p, wire) {
                        Err(m) => Err(m),
                        Ok(q) => piece_from(data, q, s, kind),
                    }
                } else {
                    Err("unknown wire type in piece: "@ + text::decimal(wire as nat) + " for field "@ + text::decimal(number as nat))
                }
            },
        }
    }
}

/// The text and the kind of a token.
pub open spec fn piece_of(data: Seq<u8>) -> Result<(Seq<char>, SentencePieceType), Seq<char>> {
    piece_from(data, 0, Seq::empty(), SentencePieceType::Normal)
}

/// The tokens of a file: those that the fields from a place on say, after those before.
pub open spec fn pieces_from(data: Seq<u8>, pos: int, done: Seq<(Seq<char>, SentencePieceType)>) -> Result<
    Seq<(Seq<char>, SentencePieceType)>,
    Seq<char>,
>
    decreases data.len() - pos,
{
    proof {
        varint_takes_bytes(data, pos);
    }
    if pos >= data.len() {
        Ok(done)
    } else {
        match varint_at(data, pos) {
            Err(m) => Err(m),
            Ok((tag, p)) => {
                let number = tag as int / 8;
                let wire = tag as int % 8;
                proof {
                    varint_takes_bytes(data, p);
                    skip_goes_on(data, p, wire);
                }
                if number == 1 && wire == 2 {
                    match varint_at(data, p) {
                        Err(m) => Err(m),
                        Ok((n, q)) => if q + n > data.len() {
                            Err("truncated piece data"@)
                        } else {
                            match piece_of(data.subrange(q, q + n)) {
                                Err(m) => Err(m),
                                Ok(piece) => pieces_from(data, q + n, done.push(piece)),
                            }
                        },
                    }
                } else if can_skip(wire) {
                    match skip_at(data, p, wire) {
                        Err(m) => Err(m),
                        Ok(q) => pieces_from(data, q, done),
                    }
                } else {
                    Err("unknown wire type "@ + text::decimal(wire as nat) + " for field "@ + text::decimal(number as nat))
                }
            },
        }
    }
}

/// The marks among tokens: for start, end and what is unknown. A token of the unknown kind counts
/// only where nothing else does.
pub open spec fn marks_of(pieces: Seq<(Seq<char>, SentencePieceType)>) -> (Option<u32>, Option<u32>, Option<u32>)
    decreases pieces.len(),
{
    if pieces.len() == 0 {
        (None, None, None)
    } else {
        let (bos, eos, unk) = marks_of(pieces.drop_last());
        let id = (pieces.len() - 1) as u32;
        let (s, kind) = pieces.last();
        if kind is Control && (s == "<s>"@ || s == "<BOS>"@) {
            (Some(id), eos, unk)
        } else if kind is Control && (s == "</s>"@ || s == "<EOS>"@) {
            (bos, Some(id), unk)
        } else if kind is Control && s == "<unk>"@ {
            (bos, eos, Some(id))
        } else if kind is Unknown && unk is None {
            (bos, eos, Some(id))
        } else {
            (bos, eos, unk)
        }
    }
}

/// Tokens with their places for ids.
pub open spec fn numbered(pieces: Seq<(Seq<char>, SentencePieceType)>) -> Seq<(Seq<char>, u32)> {
    Seq::new(pieces.len(), |i: int| (pieces[i].0, i as u32))
}

/// The error of a file that cannot be read.
fn broken(m: &str) -> (r: TokenizerError)
    ensures
        r matches TokenizerError::ProtobufError(s) && s@ == m@,
{
    TokenizerError::ProtobufError(m.to_owned())
}

/// Reads a number.
pub fn read_varint(data: &[u8], pos: usize) -> (r: Result<(u64, usize), TokenizerError>)
    ensures
        match r {
            Ok((v, end)) => varint_at(data@, pos as int) == Ok::<(u64, int), Seq<char>>((v, end as int)),
            Err(e) => e matches TokenizerError::ProtobufError(m) && varint_at(data@, pos as int) == Err::<(u64, int), Seq<char>>(m@),
        },
{
    let mut total: u128 = 0;
    let mut scale: u128 = 1;
    let mut k: u32 = 0;
    let mut at: usize = pos;
    let ghost whole = varint_from(data@, pos as int, 0);
    assert(data.len() == data@.len());
    proof {
        reveal_with_fuel(power_left, 11);
    }
    loop
        invariant
            data.len() == data@.len(),
            whole == varint_from(data@, pos as int, 0),
            k <= 9,
            total < scale,
            scale <= 0x8000_0000_0000_0000,
            scale * power_left(k as int) == 0x8000_0000_0000_0000,
            match varint_from(data@, at as int, k as nat) {
                Ok((v, end)) => whole == Ok::<(int, int), Seq<char>>((total + scale * v, end)),
                Err(m) => whole == Err::<(int, int), Seq<char>>(m),
            },
        decreases 10 - k,
    {
        if at >= data.len() {
            return Err(broken("truncated varint"));
        }
        let b: u8 = data[at];
        let low: u128 = (b % 128) as u128;
        proof {
            assert(scale * low <= scale * 127) by (nonlinear_arith)
                requires
                    low <= 127,
            ;
        }
        if b < 128 {
            let sum: u128 = total + scale * low;
            return Ok(((sum % 0x1_0000_0000_0000_0000) as u64, at + 1));
        }
        if k >= 9 {
            return Err(broken("varint too long"));
        }
        let ghost before = (total, scale);
        total = total + scale * low;
        scale = scale * 128;
        at = at + 1;
        k = k + 1;
        proof {
            power_steps(k as int);
            assert(before.1 * (128 * power_left(k as int)) == (before.1 * 128) * power_left(k as int)) by (nonlinear_arith);
            assert(scale <= 0x8000_0000_0000_0000) by (nonlinear_arith)
                requires
                    scale * power_left(k as int) == 0x8000_0000_0000_0000,
                    power_left(k as int) >= 1,
            ;
            match varint_from(data@, at as int, k as nat) {
                Ok((v, end)) => {
                    assert(before.0 + before.1 * (b - 128 + 128 * v) == (before.0 + before.1 * (b - 128)) + (before.1 * 128) * v)
                        by (nonlinear_arith);
                },
                Err(_) => {},
            }
        }
    }
}

/// The factor that is left to the tenth byte.
spec fn power_left(k: int) -> int
    decreases 9 - k,
{
    if k >= 9 {
        1
    } else {
        128 * power_left(k + 1)
    }
}

proof fn power_steps(k: int)
    requires
        1 <= k <= 9,
    ensures
        power_left(k - 1) == 128 * power_left(k),
        power_left(k) >= 1,
    decreases 9 - k,
{
    if k < 9 {
        power_steps(k + 1);
    }
}

/// Passes over a field.
fn skip(data: &[u8], pos: usize, wire: u64) -> (r: Result<usize, TokenizerError>)
    requires
        can_skip(wire as int),
        pos <= data@.len(),
    ensures
        match r {
            Ok(end) => skip_at(data@, pos as int, wire as int) == Ok::<int, Seq<char>>(end as int),
            Err(e) => e matches TokenizerError::ProtobufError(m) && skip_at(data@, pos as int, wire as int) == Err::<int, Seq<char>>(m@),
        },
{
    assert(data.len() == data@.len());
    let left: usize = data.len() - pos;
    if wire == 0 {
        match read_varint(data, pos) {
            Ok((_, end)) => Ok(end),
            Err(e) => Err(e),
        }
    } else if wire == 1 {
        if left < 8 {
            Err(broken("truncated 64-bit field"))
        } else {
            Ok(pos + 8)
        }
    } else if wire == 2 {
        match read_varint(data, pos) {
            Ok((n, p)) => {
                proof {
                    varint_takes_bytes(data@, pos as int);
                }
                if n > (data.len() - p) as u64 {
                    Err(broken("truncated length-delimited field"))
                } else {
                    Ok(p + n as usize)
                }
            },
            Err(e) => Err(e),
        }
    } else {
        if left < 4 {
            Err(broken("truncated 32-bit field"))
        } else {
            Ok(pos + 4)
        }
    }
}

/// The error of a field of an unknown kind.
fn unknown_wire(head: &str, wire: u64, number: u64) -> (r: TokenizerError)
    ensures
        r matches TokenizerError::ProtobufError(s) && s@ == head@ + text::decimal(wire as nat) + " for field "@ + text::decimal(number as nat),
{
    let a: String = text::joined(head, &text::decimal_text(wire));
    let b: String = text::joined(&a, " for field ");
    TokenizerError::ProtobufError(text::joined(&b, &text::decimal_text(number)))
}

/// A stretch of bytes.
fn part(data: &[u8], from: usize, to: usize) -> (r: Vec<u8>)
    requires
        from <= to <= data@.len(),
    ensures
        r@ == data@.subrange(from as int, to as int),
{
    let piece: &[u8] = vstd::slice::slice_subrange(data, from, to);
    let mut out: Vec<u8> = Vec::new();
    out.extend_from_slice(piece);
    assert(out@ =~= piece@);
    out
}

/// Reads a token.
pub fn parse_piece(data: &[u8]) -> (r: Result<(String, SentencePieceType), TokenizerError>)
    ensures
        match r {
            Ok(p) => piece_of(data@) == Ok::<(Seq<char>, SentencePieceType), Seq<char>>((p.0@, p.1)),
            Err(e) => e matches TokenizerError::ProtobufError(m) && piece_of(data@) == Err::<(Seq<char>, SentencePieceType), Seq<char>>(m@),
        },
{
    let mut s: String = String::new();
    let mut kind: SentencePieceType = SentencePieceType::Normal;
    let mut pos: usize = 0;
    assert(data.len() == data@.len());
    assert(s@ =~= Seq::<char>::empty());
    while pos < data.len()
        invariant
            data.len() == data@.len(),
            pos <= data@.len(),
            piece_of(data@) == piece_from(data@, pos as int, s@, kind),
        decreases data@.len() - pos,
    {
        proof {
            varint_takes_bytes(data@, pos as int);
        }
        let (tag, p): (u64, usize) = match read_varint(data, pos) {
            Ok(t) => t,
            Err(e) => {
                return Err(e);
            },
        };
        let number: u64 = tag / 8;
        let wire: u64 = tag % 8;
        proof {
            varint_takes_bytes(data@, p as int);
            skip_goes_on(data@, p as int, wire as int);
        }
        if number == 1 && wire == 2 {
            match read_varint(data, p) {
                Ok((n, q)) => {
                    if n > (data.len() - q) as u64 {
                        return Err(broken("truncated piece string"));
                    }
                    let end: usize = q + n as usize;
                    s = text::lossy_text(part(data, q, end));
                    pos = end;
                },
                Err(e) => {
                    return Err(e);
                },
            }
        } else if number == 2 && wire == 5 {
            if data.len() - p < 4 {
                return Err(broken("truncated score"));
            }
            pos = p + 4;
        } else if number == 3 && wire == 0 {
            match read_varint(data, p) {
                Ok((v, q)) => {
                    kind = find_type(v);
                    pos = q;
                },
                Err(e) => {
                    return Err(e);
                },
            }
        } else if wire == 0 || wire == 1 || wire == 2 || wire == 5 {
            match skip(data, p, wire) {
                Ok(q) => {
                    pos = q;
                },
                Err(e) => {
                    return Err(e);
                },
            }
        } else {
            return Err(unknown_wire("unknown wire type in piece: ", wire, number));
        }
    }
    Ok((s, kind))
}

/// Texts with their kinds.
pub open spec fn typed(v: Seq<(String, SentencePieceType)>) -> Seq<(Seq<char>, SentencePieceType)> {
    Seq::new(v.len(), |i: int| (v[i].0@, v[i].1))
}

/// Reads the tokens of a file.
pub fn parse_sentencepiece_proto(data: &[u8]) -> (r: Result<Vec<(String, SentencePieceType)>, TokenizerError>)
    ensures
        match r {
            Ok(v) => pieces_from(data@, 0, Seq::empty()) == Ok::<Seq<(Seq<char>, SentencePieceType)>, Seq<char>>(typed(v@)),
            Err(e) => e matches TokenizerError::ProtobufError(m) && pieces_from(data@, 0, Seq::empty()) == Err::<
                Seq<(Seq<char>, SentencePieceType)>,
                Seq<char>,
            >(m@),
        },
{
    let mut out: Vec<(String, SentencePieceType)> = Vec::new();
    let mut pos: usize = 0;
    assert(data.len() == data@.len());
    assert(typed(out@) =~= Seq::<(Seq<char>, SentencePieceType)>::empty());
    while pos < data.len()
        invariant
            data.len() == data@.len(),
            pos <= data@.len(),
            pieces_from(data@, 0, Seq::empty()) == pieces_from(data@, pos as int, typed(out@)),
        decreases data@.len() - pos,
    {
        let ghost held = typed(out@);
        proof {
            varint_takes_bytes(data@, pos as int);
        }
        let (tag, p): (u64, usize) = match read_varint(data, pos) {
            Ok(t) => t,
            Err(e) => {
                return Err(e);
            },
        };
        let number: u64 = tag / 8;
        let wire: u64 = tag % 8;
        proof {
            varint_takes_bytes(data@, p as int);
            skip_goes_on(data@, p as int, wire as int);
        }
        if number == 1 && wire == 2 {
            match read_varint(data, p) {
                Ok((n, q)) => {
                    if n > (data.len() - q) as u64 {
                        return Err(broken("truncated piece data"));
                    }
                    let end: usize = q + n as usize;
                    let inner: &[u8] = vstd::slice::slice_subrange(data, q, end);
                    match parse_piece(inner) {
                        Ok(piece) => {
                            let ghost one = (piece.0@, piece.1);
                            out.push(piece);
                            assert(typed(out@) =~= held.push(one));
                        },
                        Err(e) => {
                            return Err(e);
                        },
                    }
                    pos = end;
                },
                Err(e) => {
                    return Err(e);
                },
            }
        } else if wire == 0 || wire == 1 || wire == 2 || wire == 5 {
            match skip(data, p, wire) {
                Ok(q) => {
                    pos = q;
                },
                Err(e) => {
                    return Err(e);
                },
            }
        } else {
            return Err(unknown_wire("unknown wire type ", wire, number));
        }
    }
    Ok(out)
}

/// The tokenizer that listed tokens make: each has its place for an id, and there are no merges.
pub open spec fn made_of(pieces: Seq<(Seq<char>, SentencePieceType)>, t: BpeTokenizer) -> bool {
    &&& t.wf()
    &&& t@.vocab == bpe::vocab_from(numbered(pieces))
    &&& t@.merges == Seq::<(Seq<char>, Seq<char>)>::empty()
    &&& t@.config == (TokenizerConfig {
        vocab_size: t@.vocab.len() as usize,
        bos_token: marks_of(pieces).0,
        eos_token: marks_of(pieces).1,
        unk_token: marks_of(pieces).2,
        byte_level: false,
        digits_individual: false,
    })
}

impl BpeTokenizer {
    /// Makes a tokenizer of the tokens of a SentencePiece file.
    pub fn from_sentencepiece_bytes(data: &[u8]) -> (r: Result<BpeTokenizer, TokenizerError>)
        ensures
            match pieces_from(data@, 0, Seq::empty()) {
                Ok(pieces) => r matches Ok(t) && made_of(pieces, t),
                Err(m) => r matches Err(TokenizerError::ProtobufError(e)) && e@ == m,
            },
    {
        let pieces: Vec<(String, SentencePieceType)> = match parse_sentencepiece_proto(data) {
            Ok(v) => v,
            Err(e) => {
                return Err(e);
            },
        };
        let ghost model = typed(pieces@);
        let n: usize = pieces.len();
        let mut tokens: Vec<(String, u32)> = Vec::new();
        let mut bos: Option<u32> = None;
        let mut eos: Option<u32> = None;
        let mut unk: Option<u32> = None;
        let mut i: usize = 0;
        assert(model.take(0) =~= Seq::<(Seq<char>, SentencePieceType)>::empty());
        assert(bpe::listed(tokens@) =~= numbered(model.take(0)));
        while i < n
            invariant
                n == pieces@.len(),
                model == typed(pieces@),
                i <= n,
                bpe::listed(tokens@) == numbered(model.take(i as int)),
                (bos, eos, unk) == marks_of(model.take(i as int)),
            decreases n - i,
        {
            let id: u32 = i as u32;
            let ghost held = bpe::listed(tokens@);
            let s: &str = pieces[i].0.as_str();
            let kind: SentencePieceType = pieces[i].1;
            tokens.push((s.to_owned(), id));
            proof {
                assert(model.take(i + 1).drop_last() =~= model.take(i as int));
                assert(model.take(i + 1).last() == (s@, kind));
                assert(bpe::listed(tokens@) =~= held.push((s@, id)));
                assert(bpe::listed(tokens@) =~= numbered(model.take(i + 1)));
            }
            match kind {
                SentencePieceType::Control => {
                    if text::same(s, "<s>") || text::same(s, "<BOS>") {
                        bos = Some(id);
                    } else if text::same(s, "</s>") || text::same(s, "<EOS>") {
                        eos = Some(id);
                    } else if text::same(s, "<unk>") {
                        unk = Some(id);
                    }
                },
                SentencePieceType::Unknown => {
                    if unk.is_none() {
                        unk = Some(id);
                    }
                },
                _ => {},
            }
            i = i + 1;
        }
        assert(model.take(n as int) =~= model);
        let config: TokenizerConfig = TokenizerConfig {
            vocab_size: 0,
            bos_token: bos,
            eos_token: eos,
            unk_token: unk,
            byte_level: false,
            digits_individual: false,
        };
        let none: Vec<(String, String)> = Vec::new();
        assert(merges::pair_texts(none@) =~= Seq::<(Seq<char>, Seq<char>)>::empty());
        Ok(BpeTokenizer::from_vocab_and_merges_with_config(tokens, none, config))
    }
}

} // verus!
