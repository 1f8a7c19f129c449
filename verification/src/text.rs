use vstd::prelude::*;
use vstd::string::StringExecFns;

verus! {

/// `String::push` appends one character.
pub assume_specification[ std::string::String::push ](s: &mut std::string::String, c: char)
    ensures
        final(s)@ == old(s)@.push(c),
;

/// How `String::from_utf8` describes what is wrong with bytes that are no text.
pub uninterp spec fn utf8_fault(bytes: Seq<u8>) -> Seq<char>;

/// Calls `String::from_utf8`. The claims are that it accepts exactly the bytes that are valid
/// UTF-8, that it gives the characters that they encode, and that the description of its error
/// depends on the bytes alone.
#[verifier::external_body]
pub(crate) fn text_of_utf8(bytes: Vec<u8>) -> (r: Result<String, String>)
    ensures
        match r {
            Ok(s) => vstd::utf8::valid_utf8(bytes@) && s@ == vstd::utf8::decode_utf8(bytes@),
            Err(m) => !vstd::utf8::valid_utf8(bytes@) && m@ == utf8_fault(bytes@),
        },
{
    String::from_utf8(bytes).map_err(|e| e.to_string())
}

/// What `String::from_utf8_lossy` makes of bytes.
pub uninterp spec fn lossy(bytes: Seq<u8>) -> Seq<char>;

/// Calls `String::from_utf8_lossy`. The claims are that the text depends on the bytes alone, and
/// that bytes that are valid UTF-8 give the characters that they encode.
#[verifier::external_body]
pub(crate) fn lossy_text(bytes: Vec<u8>) -> (r: String)
    ensures
        r@ == lossy(bytes@),
        vstd::utf8::valid_utf8(bytes@) ==> r@ == vstd::utf8::decode_utf8(bytes@),
{
    String::from_utf8_lossy(&bytes).into_owned()
}

/// The text that is read from bytes: what they encode, where they are valid UTF-8, and else what
/// `String::from_utf8_lossy` makes of them.
pub open spec fn read_as(bytes: Seq<u8>) -> Seq<char> {
    if vstd::utf8::valid_utf8(bytes) {
        vstd::utf8::decode_utf8(bytes)
    } else {
        lossy(bytes)
    }
}

/// The bytes of a text read as that text.
pub proof fn encoded_reads_back(s: Seq<char>)
    ensures
        read_as(vstd::utf8::encode_utf8(s)) == s,
{
    vstd::utf8::encode_utf8_valid_utf8(s);
    vstd::utf8::encode_utf8_decode_utf8(s);
}

/// Bytes below 128 read as the characters with those numbers.
pub proof fn plain_reads_as_itself(bytes: Seq<u8>)
    requires
        forall|i: int| 0 <= i < bytes.len() ==> #[trigger] bytes[i] < 128,
    ensures
        vstd::utf8::valid_utf8(bytes),
        read_as(bytes) == Seq::new(bytes.len(), |i: int| bytes[i] as char),
    decreases bytes.len(),
{
    let whole = Seq::new(bytes.len(), |i: int| bytes[i] as char);
    if bytes.len() > 0 {
        let b = bytes[0];
        assert(b < 128 ==> (b & 0x7f) as u32 == b as u32) by (bit_vector);
        let rest = vstd::utf8::pop_first_scalar(bytes);
        assert(rest =~= bytes.skip(1));
        assert forall|i: int| 0 <= i < rest.len() implies #[trigger] rest[i] < 128 by {
            assert(rest[i] == bytes[i + 1]);
        }
        plain_reads_as_itself(rest);
        assert(read_as(bytes) =~= whole);
    } else {
        assert(read_as(bytes) =~= whole);
    }
}

/// The characters of a text, as a vector.
pub fn chars_of(s: &str) -> (r: Vec<char>)
    ensures
        r@ == s@,
{
    let mut out: Vec<char> = Vec::new();
    for c in it: s.chars()
        invariant
            it.seq() == s@,
            out@ == s@.take(it.index()),
    {
        out.push(c);
        assert(out@ =~= s@.take(it.index() + 1));
    }
    assert(s@.take(s@.len() as int) =~= s@);
    out
}

/// The text made of the given characters.
pub fn text_of(chars: &[char]) -> (r: String)
    ensures
        r@ == chars@,
{
    let mut out: String = String::new();
    let mut i: usize = 0;
    while i < chars.len()
        invariant
            i <= chars@.len(),
            out@ == chars@.take(i as int),
        decreases chars.len() - i,
    {
        out.push(chars[i]);
        i = i + 1;
        assert(out@ =~= chars@.take(i as int));
    }
    assert(chars@.take(chars@.len() as int) =~= chars@);
    out
}

/// One text after another.
pub fn joined(a: &str, b: &str) -> (r: String)
    ensures
        r@ == a@ + b@,
{
    let mut out: String = a.to_owned();
    out.append(b);
    out
}

/// Whether two texts hold the same characters.
pub fn same(a: &str, b: &str) -> (r: bool)
    ensures
        r == (a@ == b@),
{
    a.to_owned() == b.to_owned()
}

/// The decimal digit of a number below ten.
pub open spec fn digit(d: nat) -> char {
    (48 + d) as char
}

/// The decimal digits of a number, without leading zeros.
pub open spec fn decimal(n: nat) -> Seq<char>
    decreases n,
{
    if n < 10 {
        seq![digit(n)]
    } else {
        decimal(n / 10).push(digit(n % 10))
    }
}

/// Writes a number in decimal.
pub fn decimal_text(n: u64) -> (r: String)
    ensures
        r@ == decimal(n as nat),
    decreases n,
{
    if n < 10 {
        let mut out: String = String::new();
        out.push((48u8 + n as u8) as char);
        assert(out@ =~= decimal(n as nat));
        out
    } else {
        let mut out: String = decimal_text(n / 10);
        out.push((48u8 + (n % 10) as u8) as char);
        out
    }
}

/// The elements of a list in decimal, separated by a comma and a space.
pub open spec fn listed(s: Seq<usize>) -> Seq<char>
    decreases s.len(),
{
    if s.len() == 0 {
        Seq::empty()
    } else if s.len() == 1 {
        decimal(s[0] as nat)
    } else {
        listed(s.drop_last()) + ", "@ + decimal(s.last() as nat)
    }
}

/// A list of numbers in square brackets.
pub open spec fn bracketed(s: Seq<usize>) -> Seq<char> {
    "["@ + listed(s) + "]"@
}

/// Writes a list of numbers in square brackets.
pub fn bracketed_text(s: &[usize]) -> (r: String)
    ensures
        r@ == bracketed(s@),
{
    let mut out: String = "[".to_owned();
    let mut i: usize = 0;
    assert(s@.take(0) =~= Seq::<usize>::empty());
    assert(out@ =~= "["@ + listed(s@.take(0)));
    while i < s.len()
        invariant
            i <= s@.len(),
            out@ == "["@ + listed(s@.take(i as int)),
        decreases s.len() - i,
    {
        let ghost before = out@;
        assert(s@.take(i + 1).drop_last() =~= s@.take(i as int));
        if i > 0 {
            out.append(", ");
        }
        let d: String = decimal_text(s[i] as u64);
        out.append(d.as_str());
        i = i + 1;
        assert(out@ =~= "["@ + listed(s@.take(i as int)));
    }
    assert(s@.take(i as int) =~= s@);
    out.append("]");
    out
}

/// The pieces of a text between separators; there is always at least one.
pub open spec fn split(s: Seq<char>, sep: char) -> Seq<Seq<char>>
    decreases s.len(),
{
    if s.len() == 0 {
        seq![Seq::empty()]
    } else {
        let parts = split(s.drop_last(), sep);
        if s.last() == sep {
            parts.push(Seq::empty())
        } else {
            parts.drop_last().push(parts.last().push(s.last()))
        }
    }
}

/// Pieces with a separator between neighbours.
pub open spec fn join(parts: Seq<Seq<char>>, sep: char) -> Seq<char>
    decreases parts.len(),
{
    if parts.len() == 0 {
        Seq::empty()
    } else if parts.len() == 1 {
        parts[0]
    } else {
        join(parts.drop_last(), sep).push(sep) + parts.last()
    }
}

/// The contents of a list of texts.
pub open spec fn texts(v: Seq<String>) -> Seq<Seq<char>> {
    Seq::new(v.len(), |i: int| v[i]@)
}

/// There is always at least one piece.
pub proof fn split_nonempty(s: Seq<char>, sep: char)
    ensures
        split(s, sep).len() >= 1,
    decreases s.len(),
{
    if s.len() > 0 {
        split_nonempty(s.drop_last(), sep);
    }
}

proof fn join_extend(parts: Seq<Seq<char>>, sep: char, c: char)
    requires
        parts.len() >= 1,
    ensures
        join(parts.drop_last().push(parts.last().push(c)), sep) == join(parts, sep).push(c),
{
    let longer = parts.drop_last().push(parts.last().push(c));
    if parts.len() == 1 {
        assert(join(longer, sep) =~= join(parts, sep).push(c));
    } else {
        assert(longer.drop_last() =~= parts.drop_last());
        assert(join(longer, sep) =~= join(parts, sep).push(c));
    }
}

/// Joining the pieces gives the text back.
pub proof fn join_of_split(s: Seq<char>, sep: char)
    ensures
        join(split(s, sep), sep) == s,
    decreases s.len(),
{
    if s.len() > 0 {
        let head = s.drop_last();
        let parts = split(head, sep);
        join_of_split(head, sep);
        split_nonempty(head, sep);
        if s.last() == sep {
            let more = parts.push(Seq::empty());
            assert(more.drop_last() =~= parts);
            assert(join(more, sep) =~= s);
        } else {
            join_extend(parts, sep, s.last());
            assert(head.push(s.last()) =~= s);
        }
    }
}

/// A text without a separator is one piece.
proof fn split_plain(s: Seq<char>, sep: char)
    requires
        forall|i: int| 0 <= i < s.len() ==> s[i] != sep,
    ensures
        split(s, sep) == seq![s],
    decreases s.len(),
{
    if s.len() == 0 {
        assert(s =~= Seq::empty());
    } else {
        split_plain(s.drop_last(), sep);
        assert(split(s, sep) =~= seq![s]) by {
            assert(s.drop_last().push(s.last()) =~= s);
        }
    }
}

/// A piece, a separator and a text split into the piece and the pieces of the text.
pub proof fn split_front(piece: Seq<char>, s: Seq<char>, sep: char)
    requires
        forall|i: int| 0 <= i < piece.len() ==> piece[i] != sep,
    ensures
        split(piece.push(sep) + s, sep) == seq![piece] + split(s, sep),
    decreases s.len(),
{
    let whole = piece.push(sep) + s;
    if s.len() == 0 {
        split_plain(piece, sep);
        assert(whole.drop_last() =~= piece);
        assert(split(whole, sep) =~= seq![piece] + split(s, sep));
    } else {
        let head = s.drop_last();
        split_front(piece, head, sep);
        split_nonempty(head, sep);
        assert(whole.drop_last() =~= piece.push(sep) + head);
        let parts = split(head, sep);
        assert((seq![piece] + parts).last() == parts.last());
        assert((seq![piece] + parts).drop_last() =~= seq![piece] + parts.drop_last());
        assert(split(whole, sep) =~= seq![piece] + split(s, sep));
    }
}

/// Splits a text at a separator.
pub fn split_text(s: &str, sep: char) -> (r: Vec<String>)
    ensures
        texts(r@) == split(s@, sep),
{
    let chars: Vec<char> = chars_of(s);
    let mut out: Vec<String> = Vec::new();
    let mut last: String = String::new();
    let mut i: usize = 0;
    assert(s@.take(0) =~= Seq::<char>::empty());
    assert(texts(out@).push(last@) =~= split(s@.take(0), sep));
    while i < chars.len()
        invariant
            chars@ == s@,
            i <= chars@.len(),
            texts(out@).push(last@) == split(s@.take(i as int), sep),
        decreases chars.len() - i,
    {
        let c: char = chars[i];
        let ghost parts = texts(out@).push(last@);
        let ghost pieces = texts(out@);
        proof {
            assert(s@.take(i + 1).drop_last() =~= s@.take(i as int));
            assert(s@.take(i + 1).last() == c);
        }
        if c == sep {
            out.push(last);
            last = String::new();
            assert(texts(out@) =~= parts);
            assert(texts(out@).push(last@) =~= split(s@.take(i + 1), sep));
        } else {
            last.push(c);
            assert(parts.drop_last() =~= pieces);
            assert(texts(out@).push(last@) =~= split(s@.take(i + 1), sep));
        }
        i = i + 1;
    }
    assert(s@.take(i as int) =~= s@);
    let ghost parts = texts(out@).push(last@);
    out.push(last);
    assert(texts(out@) =~= parts);
    out
}

/// Joins the pieces from `from` on.
pub fn join_from(parts: &[String], from: usize, sep: char) -> (r: String)
    requires
        from <= parts@.len(),
    ensures
        r@ == join(texts(parts@).skip(from as int), sep),
{
    let mut out: String = String::new();
    let mut i: usize = from;
    let ghost tail = texts(parts@).skip(from as int);
    assert(tail.take(0) =~= Seq::<Seq<char>>::empty());
    while i < parts.len()
        invariant
            from <= i <= parts@.len(),
            tail == texts(parts@).skip(from as int),
            out@ == join(tail.take(i - from), sep),
        decreases parts.len() - i,
    {
        proof {
            assert(tail.take(i - from + 1).drop_last() =~= tail.take(i - from));
            assert(tail.take(i - from + 1).last() == parts@[i as int]@);
        }
        if i > from {
            out.push(sep);
        }
        out.append(parts[i].as_str());
        i = i + 1;
        assert(out@ =~= join(tail.take(i - from), sep));
    }
    assert(tail.take(i - from) =~= tail);
    out
}

/// Whether a character is a decimal digit.
pub open spec fn is_digit(c: char) -> bool {
    48 <= c as int <= 57
}

/// The number that decimal digits stand for.
pub open spec fn digits_value(s: Seq<char>) -> nat
    decreases s.len(),
{
    if s.len() == 0 {
        0
    } else {
        digits_value(s.drop_last()) * 10 + (s.last() as nat - 48) as nat
    }
}

/// The digits of a number: what is left of a text without a plus sign at its front.
pub open spec fn unsigned_digits(s: Seq<char>) -> Seq<char> {
    if s.len() > 0 && s[0] == '+' {
        s.skip(1)
    } else {
        s
    }
}

/// The number that a text stands for: an optional plus sign and at least one digit, within the
/// range of a size.
pub open spec fn size_value(s: Seq<char>) -> Option<usize> {
    let d = unsigned_digits(s);
    if d.len() > 0 && (forall|i: int| 0 <= i < d.len() ==> is_digit(d[i])) && digits_value(d) <= usize::MAX {
        Some(digits_value(d) as usize)
    } else {
        None
    }
}

proof fn digits_grow(s: Seq<char>, n: int)
    requires
        0 <= n <= s.len(),
        forall|i: int| 0 <= i < s.len() ==> is_digit(s[i]),
    ensures
        digits_value(s.take(n)) <= digits_value(s),
    decreases s.len(),
{
    if n == s.len() {
        assert(s.take(n) =~= s);
    } else {
        digits_grow(s.drop_last(), n);
        assert(s.drop_last().take(n) =~= s.take(n));
    }
}

/// The digits of a number stand for that number.
pub proof fn decimal_value(n: nat)
    ensures
        decimal(n).len() > 0,
        forall|i: int| 0 <= i < decimal(n).len() ==> is_digit(decimal(n)[i]),
        digits_value(decimal(n)) == n,
    decreases n,
{
    if n < 10 {
        let s = seq![digit(n)];
        assert(s.drop_last() =~= Seq::empty());
        assert(digits_value(s.drop_last()) == 0);
    } else {
        decimal_value(n / 10);
        assert(decimal(n).drop_last() =~= decimal(n / 10));
    }
}

/// A size written in decimal reads back as that size.
pub proof fn size_reads_back(n: usize)
    ensures
        size_value(decimal(n as nat)) == Some(n),
{
    decimal_value(n as nat);
}

/// Tests whether a character is a decimal digit.
pub fn test_digit(c: char) -> (r: bool)
    ensures
        r == is_digit(c),
{
    48 <= c as u32 && c as u32 <= 57
}

fn digit_value(c: char) -> (r: usize)
    requires
        is_digit(c),
    ensures
        r == c as int - 48,
{
    (c as u32 - 48) as usize
}

/// Reads a number.
pub fn parse_size(s: &str) -> (r: Option<usize>)
    ensures
        r == size_value(s@),
{
    let chars: Vec<char> = chars_of(s);
    let start: usize = if chars.len() > 0 && chars[0] == '+' { 1 } else { 0 };
    let ghost d = unsigned_digits(s@);
    assert(d =~= s@.skip(start as int));
    if start == chars.len() {
        return None;
    }
    let mut i: usize = start;
    while i < chars.len()
        invariant
            chars@ == s@,
            d == s@.skip(start as int),
            d == unsigned_digits(s@),
            start <= i <= chars@.len(),
            forall|k: int| 0 <= k < i - start ==> is_digit(d[k]),
        decreases chars.len() - i,
    {
        let c: char = chars[i];
        assert(d[i - start] == c);
        if !test_digit(c) {
            return None;
        }
        i = i + 1;
    }
    let mut n: usize = 0;
    let mut k: usize = start;
    assert(d.take(0) =~= Seq::<char>::empty());
    while k < chars.len()
        invariant
            chars@ == s@,
            d == s@.skip(start as int),
            d == unsigned_digits(s@),
            start <= k <= chars@.len(),
            d.len() == chars@.len() - start,
            forall|j: int| 0 <= j < d.len() ==> is_digit(d[j]),
            n == digits_value(d.take(k - start)),
        decreases chars.len() - k,
    {
        proof {
            assert(d.take(k - start + 1).drop_last() =~= d.take(k - start));
            digits_grow(d, k - start + 1);
            assert(is_digit(d[k - start]));
        }
        let v: usize = digit_value(chars[k]);
        if n > usize::MAX / 10 {
            return None;
        }
        if n * 10 > usize::MAX - v {
            return None;
        }
        n = n * 10 + v;
        k = k + 1;
    }
    assert(d.take(k - start) =~= d);
    Some(n)
}

} // verus!
