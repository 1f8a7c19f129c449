//! Byte-level chunks: every byte of a text is written as a character of its own.
use super::pretokens;
use super::pretokens::Class;
use crate::text;
use vstd::prelude::*;
use vstd::utf8;

verus! {

/// A byte whose character can be printed stands for itself.
pub open spec fn printable(b: u8) -> bool {
    33 <= b <= 126 || 161 <= b <= 172 || 174 <= b
}

/// The number of the character that a byte is written as: the bytes that cannot be printed follow
/// one another from 256 on.
pub open spec fn byte_code(b: u8) -> int {
    if printable(b) {
        b as int
    } else if b <= 32 {
        256 + b
    } else if b == 173 {
        323
    } else {
        162 + b
    }
}

/// The character that a byte is written as.
pub open spec fn byte_char(b: u8) -> char {
    byte_code(b) as u32 as char
}

/// The byte that a character stands for.
pub open spec fn char_byte(c: char) -> Option<u8> {
    let v = c as int;
    if v < 256 && printable(v as u8) {
        Some(v as u8)
    } else if 256 <= v <= 288 {
        Some((v - 256) as u8)
    } else if 289 <= v <= 322 {
        Some((v - 162) as u8)
    } else if v == 323 {
        Some(173)
    } else {
        None
    }
}

/// A byte is found again in its character.
pub proof fn byte_found_again(b: u8)
    ensures
        char_byte(byte_char(b)) == Some(b),
        byte_char(b) as int == byte_code(b),
{
}

/// A character that stands for a byte is the one that the byte is written as.
pub proof fn char_found_again(c: char)
    ensures
        char_byte(c) matches Some(b) ==> byte_char(b) == c,
{
}

/// Writes a byte as a character.
pub fn encode_byte(b: u8) -> (r: char)
    ensures
        r == byte_char(b),
{
    let code: u32 = if (33 <= b && b <= 126) || (161 <= b && b <= 172) || 174 <= b {
        b as u32
    } else if b <= 32 {
        256 + b as u32
    } else if b == 173 {
        323
    } else {
        162 + b as u32
    };
    proof {
        byte_found_again(b);
        utf8::char_is_scalar(byte_char(b));
        assert(byte_char(b) as u32 == code);
    }
    match char::from_u32(code) {
        Some(c) => {
            proof {
                utf8::char_u32_cast(c, code);
                utf8::char_u32_cast(byte_char(b), code);
            }
            c
        },
        None => ' ',
    }
}

/// Finds the byte that a character stands for.
pub fn decode_byte(c: char) -> (r: Option<u8>)
    ensures
        r == char_byte(c),
{
    let v: u32 = c as u32;
    if (33 <= v && v <= 126) || (161 <= v && v <= 172) || (174 <= v && v <= 255) {
        Some(v as u8)
    } else if 256 <= v && v <= 288 {
        Some((v - 256) as u8)
    } else if 289 <= v && v <= 322 {
        Some((v - 162) as u8)
    } else if v == 323 {
        Some(173)
    } else {
        None
    }
}

/// Bytes written as characters.
pub open spec fn byte_text(bytes: Seq<u8>) -> Seq<char> {
    Seq::new(bytes.len(), |i: int| byte_char(bytes[i]))
}

/// The end of a run of characters of a class.
pub open spec fn run_end(s: Seq<char>, i: int, class: Class) -> int
    decreases s.len() - i,
{
    if 0 <= i < s.len() && pretokens::in_class(s[i], class) {
        run_end(s, i + 1, class)
    } else {
        i
    }
}

/// A run ends after it starts, inside the text.
pub proof fn run_end_bounds(s: Seq<char>, i: int, class: Class)
    requires
        0 <= i <= s.len(),
    ensures
        i <= run_end(s, i, class) <= s.len(),
    decreases s.len() - i,
{
    if i < s.len() && pretokens::in_class(s[i], class) {
        run_end_bounds(s, i + 1, class);
    }
}

/// How many characters the ending of a contraction takes, with its apostrophe: `'s`, `'t`, `'m`,
/// `'d`, `'ll`, `'ve` or `'re` in any case; zero where there is none.
pub open spec fn contraction(s: Seq<char>, i: int) -> int {
    if i + 1 < s.len() && (pretokens::ascii_lower(s[i + 1]) == 's' as int || pretokens::ascii_lower(s[i + 1]) == 't' as int
        || pretokens::ascii_lower(s[i + 1]) == 'm' as int || pretokens::ascii_lower(s[i + 1]) == 'd' as int) {
        2
    } else if i + 2 < s.len() && (pair_is(s, i + 1, 'l', 'l') || pair_is(s, i + 1, 'v', 'e') || pair_is(s, i + 1, 'r', 'e')) {
        3
    } else {
        0
    }
}

/// Two characters, in any case.
pub open spec fn pair_is(s: Seq<char>, i: int, a: char, b: char) -> bool {
    pretokens::ascii_lower(s[i]) == a as int && pretokens::ascii_lower(s[i + 1]) == b as int
}

/// Where the chunk that starts at a place ends: a contraction; letters or punctuation, with one
/// whitespace in front, punctuation also with line breaks behind; numbers; or whitespace, of which
/// the last is left to what follows.
pub open spec fn chunk_end(s: Seq<char>, i: int) -> int {
    let c = s[i];
    let more = i + 1 < s.len();
    if c == '\'' && contraction(s, i) > 0 {
        i + contraction(s, i)
    } else if pretokens::whitespace(c) && more && pretokens::in_class(s[i + 1], Class::Letter) {
        run_end(s, i + 2, Class::Letter)
    } else if pretokens::in_class(c, Class::Letter) {
        run_end(s, i + 1, Class::Letter)
    } else if pretokens::in_class(c, Class::Number) {
        run_end(s, i + 1, Class::Number)
    } else if pretokens::whitespace(c) && more && pretokens::in_class(s[i + 1], Class::Punct) {
        run_end(s, run_end(s, i + 2, Class::Punct), Class::Break)
    } else if pretokens::in_class(c, Class::Punct) {
        run_end(s, run_end(s, i + 1, Class::Punct), Class::Break)
    } else {
        let j = run_end(s, i + 1, Class::Space);
        if i + 1 < j < s.len() {
            j - 1
        } else {
            j
        }
    }
}

/// The chunk at a place is a run of numbers.
pub open spec fn at_numbers(s: Seq<char>, i: int) -> bool {
    let c = s[i];
    &&& !(c == '\'' && contraction(s, i) > 0)
    &&& !(pretokens::whitespace(c) && i + 1 < s.len() && pretokens::in_class(s[i + 1], Class::Letter))
    &&& !pretokens::in_class(c, Class::Letter)
    &&& pretokens::in_class(c, Class::Number)
}

/// A chunk is not empty, and lies in the text.
pub proof fn chunk_end_bounds(s: Seq<char>, i: int)
    requires
        0 <= i < s.len(),
    ensures
        i < chunk_end(s, i) <= s.len(),
{
    run_end_bounds(s, i + 1, Class::Letter);
    run_end_bounds(s, i + 1, Class::Number);
    run_end_bounds(s, i + 1, Class::Punct);
    run_end_bounds(s, i + 1, Class::Space);
    run_end_bounds(s, run_end(s, i + 1, Class::Punct), Class::Break);
    if i + 1 < s.len() {
        run_end_bounds(s, i + 2, Class::Letter);
        run_end_bounds(s, i + 2, Class::Punct);
        run_end_bounds(s, run_end(s, i + 2, Class::Punct), Class::Break);
    }
}

/// Characters one by one.
pub open spec fn singles(s: Seq<char>) -> Seq<Seq<char>> {
    Seq::new(s.len(), |i: int| seq![s[i]])
}

/// The chunks of a text from a place on; numbers one by one where that is asked for.
pub open spec fn chunks_from(s: Seq<char>, i: int, digits: bool) -> Seq<Seq<char>>
    decreases s.len() - i,
{
    if i < 0 || i >= s.len() {
        Seq::empty()
    } else {
        proof {
            chunk_end_bounds(s, i);
        }
        let j = chunk_end(s, i);
        (if digits && at_numbers(s, i) {
            singles(s.subrange(i, j))
        } else {
            seq![s.subrange(i, j)]
        }) + chunks_from(s, j, digits)
    }
}

/// Characters one by one are the text.
pub proof fn singles_keep(s: Seq<char>)
    ensures
        pretokens::flat(singles(s)) == s,
    decreases s.len(),
{
    if s.len() == 0 {
        assert(pretokens::flat(singles(s)) =~= s);
    } else {
        singles_keep(s.drop_last());
        assert(singles(s).drop_last() =~= singles(s.drop_last()));
        assert(s.drop_last() + seq![s.last()] =~= s);
    }
}

/// The chunks of a text, one after another, are the text.
pub proof fn chunks_keep_text(s: Seq<char>, i: int, digits: bool)
    requires
        0 <= i <= s.len(),
    ensures
        pretokens::flat(chunks_from(s, i, digits)) == s.subrange(i, s.len() as int),
    decreases s.len() - i,
{
    if i == s.len() {
        assert(pretokens::flat(chunks_from(s, i, digits)) =~= s.subrange(i, s.len() as int));
    } else {
        chunk_end_bounds(s, i);
        let j = chunk_end(s, i);
        chunks_keep_text(s, j, digits);
        let part = s.subrange(i, j);
        let first = if digits && at_numbers(s, i) {
            singles(part)
        } else {
            seq![part]
        };
        singles_keep(part);
        assert(pretokens::flat(first) =~= part) by {
            assert(seq![part].drop_last() =~= Seq::<Seq<char>>::empty());
            assert(pretokens::flat(seq![part]) =~= pretokens::flat(Seq::<Seq<char>>::empty()) + part);
        }
        pretokens::flat_join(first, chunks_from(s, j, digits));
        assert(part + s.subrange(j, s.len() as int) =~= s.subrange(i, s.len() as int));
    }
}

/// Chunks, each written byte by byte.
pub open spec fn written(chunks: Seq<Seq<char>>) -> Seq<Seq<char>> {
    Seq::new(chunks.len(), |i: int| byte_text(utf8::encode_utf8(chunks[i])))
}

/// Finds the end of a run.
fn run_to(s: &[char], i: usize, class: Class) -> (r: usize)
    requires
        i <= s@.len(),
    ensures
        r == run_end(s@, i as int, class),
        i <= r <= s@.len(),
{
    let mut j: usize = i;
    assert(s.len() == s@.len());
    while j < s.len() && pretokens::test_class(s[j], class)
        invariant
            i <= j <= s@.len(),
            s.len() == s@.len(),
            run_end(s@, i as int, class) == run_end(s@, j as int, class),
        decreases s@.len() - j,
    {
        j = j + 1;
    }
    j
}

/// The length of a contraction at a place, with its apostrophe, if there is one.
pub fn contraction_len(chars: &[char], i: usize) -> (r: Option<usize>)
    requires
        i < chars@.len(),
    ensures
        match r {
            Some(n) => n == contraction(chars@, i as int) && n > 0,
            None => contraction(chars@, i as int) == 0,
        },
{
    assert(chars.len() == chars@.len());
    if chars.len() - i < 2 {
        return None;
    }
    let a: u32 = pretokens::lower_of(chars[i + 1]);
    if a == 's' as u32 || a == 't' as u32 || a == 'm' as u32 || a == 'd' as u32 {
        return Some(2);
    }
    if chars.len() - i < 3 {
        return None;
    }
    let b: u32 = pretokens::lower_of(chars[i + 2]);
    if (a == 'l' as u32 && b == 'l' as u32) || (a == 'v' as u32 && b == 'e' as u32) || (a == 'r' as u32 && b == 'e' as u32) {
        return Some(3);
    }
    None
}

/// Finds where the chunk at a place ends, and whether it is a run of numbers.
fn find_end(s: &[char], i: usize) -> (r: (usize, bool))
    requires
        i < s@.len(),
    ensures
        r.0 == chunk_end(s@, i as int),
        r.1 == at_numbers(s@, i as int),
        i < r.0 <= s@.len(),
{
    proof {
        chunk_end_bounds(s@, i as int);
    }
    assert(s.len() == s@.len());
    let c: char = s[i];
    if c == '\'' {
        if let Some(n) = contraction_len(s, i) {
            return (i + n, false);
        }
    }
    let space: bool = pretokens::test_class(c, Class::Space);
    let more: bool = s.len() - i > 1;
    if space && more && pretokens::test_class(s[i + 1], Class::Letter) {
        return (run_to(s, i + 2, Class::Letter), false);
    }
    if pretokens::test_class(c, Class::Letter) {
        return (run_to(s, i + 1, Class::Letter), false);
    }
    if pretokens::test_class(c, Class::Number) {
        return (run_to(s, i + 1, Class::Number), true);
    }
    if space && more && pretokens::test_class(s[i + 1], Class::Punct) {
        let j: usize = run_to(s, i + 2, Class::Punct);
        return (run_to(s, j, Class::Break), false);
    }
    if pretokens::test_class(c, Class::Punct) {
        let j: usize = run_to(s, i + 1, Class::Punct);
        return (run_to(s, j, Class::Break), false);
    }
    let j: usize = run_to(s, i + 1, Class::Space);
    if j < s.len() && j > i + 1 {
        (j - 1, false)
    } else {
        (j, false)
    }
}

/// Writes characters byte by byte.
pub fn byte_encode(chars: &[char]) -> (r: String)
    ensures
        r@ == byte_text(utf8::encode_utf8(chars@)),
{
    let t: String = text::text_of(chars);
    let bytes: &[u8] = t.as_str().as_bytes();
    let mut out: String = String::new();
    let mut i: usize = 0;
    while i < bytes.len()
        invariant
            i <= bytes@.len(),
            out@ == byte_text(bytes@.take(i as int)),
        decreases bytes@.len() - i,
    {
        let ghost held = out@;
        out.push(encode_byte(bytes[i]));
        assert(byte_text(bytes@.take(i + 1)) =~= held.push(byte_char(bytes@[i as int])));
        i = i + 1;
    }
    assert(bytes@.take(bytes@.len() as int) =~= bytes@);
    out
}

/// Cuts a text into chunks and writes them byte by byte.
pub fn pretokenize_byte_level(s: &str, digits: bool) -> (r: Vec<String>)
    ensures
        text::texts(r@) == written(chunks_from(s@, 0, digits)),
{
    let chars: Vec<char> = text::chars_of(s);
    let n: usize = chars.len();
    let mut out: Vec<String> = Vec::new();
    let mut i: usize = 0;
    let ghost all = written(chunks_from(s@, 0, digits));
    assert(text::texts(out@) + all =~= all);
    while i < n
        invariant
            n == chars@.len(),
            chars@ == s@,
            i <= n,
            all == written(chunks_from(s@, 0, digits)),
            all == text::texts(out@) + written(chunks_from(s@, i as int, digits)),
        decreases n - i,
    {
        let ghost held = text::texts(out@);
        let (j, numbers) = find_end(chars.as_slice(), i);
        let ghost rest = chunks_from(s@, j as int, digits);
        if digits && numbers {
            let ghost part = s@.subrange(i as int, j as int);
            let mut k: usize = i;
            while k < j
                invariant
                    n == chars@.len(),
                    chars@ == s@,
                    i <= k <= j <= n,
                    text::texts(out@) == held + written(singles(s@.subrange(i as int, k as int))),
                decreases j - k,
            {
                let ghost before = text::texts(out@);
                let one: &[char] = vstd::slice::slice_subrange(chars.as_slice(), k, k + 1);
                assert(one@ =~= seq![s@[k as int]]);
                let w: String = byte_encode(one);
                out.push(w);
                proof {
                    assert(text::texts(out@) =~= before.push(w@));
                    assert(written(singles(s@.subrange(i as int, k + 1))) =~= written(singles(s@.subrange(i as int, k as int))).push(w@)) by {
                        assert(s@.subrange(i as int, k + 1)[k - i] == s@[k as int]);
                    }
                    assert(text::texts(out@) =~= held + written(singles(s@.subrange(i as int, k + 1))));
                }
                k = k + 1;
            }
            proof {
                assert(written(chunks_from(s@, i as int, digits)) =~= written(singles(part)) + written(rest));
                assert(text::texts(out@) + written(rest) =~= held + (written(singles(part)) + written(rest)));
            }
        } else {
            let part: &[char] = vstd::slice::slice_subrange(chars.as_slice(), i, j);
            let w: String = byte_encode(part);
            out.push(w);
            proof {
                assert(text::texts(out@) =~= held.push(w@));
                assert(written(chunks_from(s@, i as int, digits)) =~= seq![w@] + written(rest));
                assert(text::texts(out@) + written(rest) =~= held + (seq![w@] + written(rest)));
            }
        }
        i = j;
    }
    assert(text::texts(out@) + written(chunks_from(s@, i as int, digits)) =~= text::texts(out@));
    out
}

} // verus!
